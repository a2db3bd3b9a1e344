use vstd::prelude::*;

use crate::builder::{build_tables, empty_tables, spec_run, Tables, TablesView};
use crate::error::Error;
use crate::reader::{check_header, decode_words, header_ok, spec_words};
use crate::resolve::{group_bindings, resolve_all, spec_group, spec_resolve_all};
use crate::spirv::HEADER_WORDS;
use crate::types::{sets_view, DescriptorSet, SetView};

verus! {

// A built module: the validated word buffer, the per-ID tables, and the
// descriptor sets resolved from them. Everything is computed once, by
// `build`; a `Module` is immutable afterwards and queries only read it.

/// The mathematical value of a built module.
pub ghost struct ModuleView {
    pub words: Seq<u32>,
    pub tables: TablesView,
    pub sets: Seq<SetView>,
}

/// A successfully built module.
#[derive(Clone)]
pub struct Module {
    words: Vec<u32>,
    tables: Tables,
    sets: Vec<DescriptorSet>,
}

/// What `build` returns for a byte buffer: the unaligned-buffer check
/// comes first, before any word is decoded; then the header is validated;
/// then the instruction stream fills the tables; then the variables
/// resolve into slot-ordered descriptor sets. The first failure aborts
/// the build with its error; no partial module exists.
pub open spec fn spec_build(bytes: Seq<u8>) -> Result<ModuleView, Error> {
    if bytes.len() % 4 != 0 {
        Err(Error::UnalignedBuffer)
    } else {
        let w = spec_words(bytes);
        if !header_ok(w) {
            Err(Error::MalformedHeader)
        } else {
            match spec_run(empty_tables(), w, HEADER_WORDS as nat) {
                Err(e) => Err(e),
                Ok(t) => match spec_resolve_all(t) {
                    Err(e) => Err(e),
                    Ok(flat) => Ok(ModuleView { words: w, tables: t, sets: spec_group(flat) }),
                },
            }
        }
    }
}

impl View for Module {
    type V = ModuleView;

    closed spec fn view(&self) -> ModuleView {
        ModuleView { words: self.words@, tables: self.tables@, sets: sets_view(self.sets@) }
    }
}

impl Module {
    /// The word buffer is small enough for its byte size to be a `usize`;
    /// `build` establishes this from the byte buffer it was handed.
    pub closed spec fn wf(&self) -> bool {
        self.words@.len() * 4 <= usize::MAX
    }

    /// The byte size of the module's code.
    pub fn code_size(&self) -> (r: usize)
        requires
            self.wf(),
        ensures
            r == self@.words.len() * 4,
    {
        self.words.len() * 4
    }

    /// The module's code as words.
    pub fn code_slice(&self) -> (r: &[u32])
        ensures
            r@ == self@.words,
    {
        self.words.as_slice()
    }

    /// The resolved descriptor sets, in ascending set order.
    pub fn sets_ref(&self) -> (r: &Vec<DescriptorSet>)
        ensures
            sets_view(r@) == self@.sets,
    {
        &self.sets
    }
}

/// Builds a module from a byte buffer, exactly as `spec_build` describes:
/// the returned module's words, tables and descriptor sets are the ones
/// the specification assigns to these bytes, and an error is returned if
/// and only if the specification rejects them, with the same kind.
pub fn build(bytes: &[u8]) -> (r: Result<Module, Error>)
    ensures
        match r {
            Ok(m) => spec_build(bytes@) == Ok::<ModuleView, Error>(m@) && m.wf(),
            Err(e) => spec_build(bytes@) == Err::<ModuleView, Error>(e),
        },
{
    let words = match decode_words(bytes) {
        Ok(w) => w,
        Err(e) => {
            return Err(e);
        },
    };
    if !check_header(&words) {
        return Err(Error::MalformedHeader);
    }
    let tables = match build_tables(&words) {
        Ok(t) => t,
        Err(e) => {
            return Err(e);
        },
    };
    let flat = match resolve_all(&tables) {
        Ok(f) => f,
        Err(e) => {
            return Err(e);
        },
    };
    let sets = group_bindings(&flat);
    let n = bytes.len();
    proof {
        assert(n == bytes@.len());
        assert(4 * (bytes@.len() / 4) == bytes@.len()) by {
            vstd::arithmetic::div_mod::lemma_fundamental_div_mod(bytes@.len() as int, 4);
        }
        assert(words@.len() * 4 <= usize::MAX);
    }
    Ok(Module { words, tables, sets })
}

} // verus!
