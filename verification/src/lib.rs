use vstd::prelude::*;

pub mod builder;
pub mod laws;
pub mod error;
pub mod module;
pub mod reader;
pub mod resolve;
pub mod spirv;
pub mod types;

use crate::error::Error;
use crate::module::{build, spec_build, Module, ModuleView};
use crate::types::{
    bindings_view, copy_binding, copy_set, lemma_sets_view_push, sets_view, DescriptorSet,
    ResolvedBinding, SetView,
};

verus! {

/// The first declared set with a given index, if any.
pub open spec fn set_lookup(sets: Seq<SetView>, set: u32) -> Option<SetView>
    decreases sets.len(),
{
    if sets.len() == 0 {
        None
    } else if sets[0].set == set {
        Some(sets[0])
    } else {
        set_lookup(sets.drop_first(), set)
    }
}

proof fn lemma_set_lookup_step(sets: Seq<SetView>, set: u32, i: int)
    requires
        0 <= i < sets.len(),
        sets[i].set != set,
    ensures
        set_lookup(sets.skip(i), set) == set_lookup(sets.skip(i + 1), set),
{
    assert(sets.skip(i).drop_first() =~= sets.skip(i + 1));
    assert(sets.skip(i)[0] == sets[i]);
}

// The reflection facade: a read-only view over a module built once. A
// `ShaderModule` either holds a built module or holds none; every query
// on an empty one returns an empty or zero result rather than failing.

/// A shader module handle: the stable, read-only query surface.
#[derive(Clone)]
pub struct ShaderModule {
    module: Option<Module>,
}

impl View for ShaderModule {
    type V = Option<ModuleView>;

    closed spec fn view(&self) -> Option<ModuleView> {
        match self.module {
            Some(ref m) => Some(m@),
            None => None,
        }
    }
}

impl ShaderModule {
    /// The held module, if any, is well formed. Both constructors — the
    /// empty default and a successful build — establish this.
    pub closed spec fn wf(&self) -> bool {
        match self.module {
            Some(ref m) => m.wf(),
            None => true,
        }
    }

    /// The byte size of the module's code; 0 for an empty handle.
    pub fn code_size(&self) -> (r: usize)
        requires
            self.wf(),
        ensures
            match self@ {
                Some(m) => r == m.words.len() * 4,
                None => r == 0,
            },
    {
        match &self.module {
            Some(m) => m.code_size(),
            None => 0,
        }
    }

    /// The module's code as words; only a built handle holds code.
    pub fn code_slice(&self) -> (r: &[u32])
        requires
            self.wf(),
            self@ is Some,
        ensures
            match self@ {
                Some(m) => r@ == m.words,
                None => false,
            },
    {
        match &self.module {
            Some(m) => m.code_slice(),
            None => vstd::pervasive::unreached(),
        }
    }

    /// How many descriptor sets the module declares; 0 for an empty
    /// handle. Never an error: resolution already happened at build time.
    pub fn descriptor_set_count(&self) -> (r: Result<usize, Error>)
        ensures
            match self@ {
                Some(m) => r == Ok::<usize, Error>(m.sets.len() as usize),
                None => r == Ok::<usize, Error>(0usize),
            },
    {
        match &self.module {
            Some(m) => Ok(m.sets_ref().len()),
            None => Ok(0),
        }
    }

    /// The resolved descriptor sets, copied out in ascending set order,
    /// each set's bindings in ascending binding order; empty for an empty
    /// handle. Never an error: resolution already happened at build time.
    pub fn descriptor_sets(&self) -> (r: Result<Vec<DescriptorSet>, Error>)
        ensures
            match r {
                Ok(v) => match self@ {
                    Some(m) => sets_view(v@) == m.sets,
                    None => v@.len() == 0,
                },
                Err(_) => false,
            },
    {
        let m = match &self.module {
            Some(m) => m,
            None => {
                return Ok(Vec::new());
            },
        };
        let stored = m.sets_ref();
        let ghost target = sets_view(stored@);
        let mut out: Vec<DescriptorSet> = Vec::new();
        proof {
            assert(sets_view(out@) =~= target.subrange(0, 0));
        }
        let mut i: usize = 0;
        while i < stored.len()
            invariant
                i <= stored@.len(),
                target == sets_view(stored@),
                sets_view(out@) == target.subrange(0, i as int),
            decreases stored@.len() - i,
        {
            let ghost prev = out@;
            let d = copy_set(&stored[i]);
            proof {
                lemma_sets_view_push(prev, d);
                assert(sets_view(stored@)[i as int] == stored@[i as int]@);
            }
            out.push(d);
            proof {
                assert(sets_view(out@) =~= target.subrange(0, i + 1 as int));
            }
            i = i + 1;
        }
        proof {
            assert(target.subrange(0, target.len() as int) =~= target);
        }
        Ok(out)
    }

    /// The bindings of the descriptor set with the given index, copied
    /// out; a set the module does not declare is a normal condition and
    /// yields an empty result, not an error.
    pub fn descriptor_set(&self, set: u32) -> (r: Vec<ResolvedBinding>)
        ensures
            match self@ {
                Some(m) => match set_lookup(m.sets, set) {
                    Some(sv) => bindings_view(r@) == sv.bindings,
                    None => r@.len() == 0,
                },
                None => r@.len() == 0,
            },
    {
        let m = match &self.module {
            Some(m) => m,
            None => {
                return Vec::new();
            },
        };
        let stored = m.sets_ref();
        let ghost sets = sets_view(stored@);
        let mut i: usize = 0;
        proof {
            assert(sets.skip(0) =~= sets);
        }
        while i < stored.len()
            invariant
                i <= stored@.len(),
                sets == sets_view(stored@),
                self@ matches Some(mv) && mv.sets == sets,
                set_lookup(sets, set) == set_lookup(sets.skip(i as int), set),
            decreases stored@.len() - i,
        {
            proof {
                assert(sets[i as int] == stored@[i as int]@);
            }
            if stored[i].set == set {
                let d = copy_set(&stored[i]);
                proof {
                    assert(sets.skip(i as int)[0] == sets[i as int]);
                    assert(set_lookup(sets, set) == Some(sets[i as int]));
                    assert(d@ == sets[i as int]);
                    assert(bindings_view(d.bindings@) == sets[i as int].bindings);
                }
                return d.bindings;
            }
            proof {
                lemma_set_lookup_step(sets, set, i as int);
            }
            i = i + 1;
        }
        proof {
            assert(sets.skip(i as int) =~= Seq::<SetView>::empty());
        }
        Vec::new()
    }
}

impl Default for ShaderModule {
    /// The empty handle: no module, every query empty or zero.
    fn default() -> (r: Self)
        ensures
            r@ is None,
            r.wf(),
    {
        ShaderModule { module: None }
    }
}

/// Builds a shader module from a byte buffer and wraps it for querying.
/// Succeeds with the module `spec_build` assigns to these bytes, or fails
/// with exactly the error `spec_build` assigns.
pub fn create_shader_module(spv_data: &[u8]) -> (r: Result<ShaderModule, Error>)
    ensures
        match r {
            Ok(sm) => sm.wf() && match sm@ {
                Some(mv) => spec_build(spv_data@) == Ok::<ModuleView, Error>(mv),
                None => false,
            },
            Err(e) => spec_build(spv_data@) == Err::<ModuleView, Error>(e),
        },
{
    match build(spv_data) {
        Ok(m) => Ok(ShaderModule { module: Some(m) }),
        Err(e) => Err(e),
    }
}

} // verus!
