use vstd::prelude::*;

use crate::error::Error;
use crate::spirv::{
    HEADER_WORDS, OP_CONSTANT, OP_DECORATE, OP_NAME, OP_TYPE_ARRAY, OP_TYPE_BOOL,
    OP_TYPE_FLOAT, OP_TYPE_IMAGE, OP_TYPE_INT, OP_TYPE_MATRIX, OP_TYPE_OPAQUE, OP_TYPE_POINTER,
    OP_TYPE_RUNTIME_ARRAY, OP_TYPE_SAMPLED_IMAGE, OP_TYPE_SAMPLER, OP_TYPE_STRUCT, OP_TYPE_VECTOR,
    OP_TYPE_VOID, OP_VARIABLE,
};
use crate::types::{alist_lookup, alist_get, DecEntry, NameEntry, TypeDesc, VarDecl};

verus! {

// The module builder: consumes the instruction stream once, in stream
// order, and fills the per-ID tables. Type and variable IDs must not be
// redefined; unrecognized opcodes are skipped so that newer binaries with
// unfamiliar instructions still reflect. A type-relevant instruction with
// fewer operands than its opcode requires is skipped the same way.

/// The per-ID tables collected from the instruction stream.
#[derive(Clone)]
pub struct Tables {
    pub types: Vec<(u32, TypeDesc)>,
    pub constants: Vec<(u32, u32)>,
    pub decorations: Vec<DecEntry>,
    pub variables: Vec<(u32, VarDecl)>,
    pub names: Vec<NameEntry>,
}

/// The mathematical value of the tables.
pub ghost struct TablesView {
    pub types: Seq<(u32, TypeDesc)>,
    pub constants: Seq<(u32, u32)>,
    pub decorations: Seq<DecEntry>,
    pub variables: Seq<(u32, VarDecl)>,
    pub names: Seq<(u32, Seq<u8>)>,
}

/// The name entries a name vector denotes.
pub open spec fn names_view(s: Seq<NameEntry>) -> Seq<(u32, Seq<u8>)> {
    s.map_values(|e: NameEntry| (e.id, e.bytes@))
}

/// Appending a name entry appends its value to the denoted sequence.
pub proof fn lemma_names_view_push(s: Seq<NameEntry>, e: NameEntry)
    ensures
        names_view(s.push(e)) == names_view(s).push((e.id, e.bytes@)),
{
    assert(names_view(s.push(e)) =~= names_view(s).push((e.id, e.bytes@)));
}

impl View for Tables {
    type V = TablesView;

    open spec fn view(&self) -> TablesView {
        TablesView {
            types: self.types@,
            constants: self.constants@,
            decorations: self.decorations@,
            variables: self.variables@,
            names: names_view(self.names@),
        }
    }
}

/// The empty tables, before any instruction was consumed.
pub open spec fn empty_tables() -> TablesView {
    TablesView {
        types: Seq::empty(),
        constants: Seq::empty(),
        decorations: Seq::empty(),
        variables: Seq::empty(),
        names: Seq::empty(),
    }
}

/// The four bytes of a word, least significant first.
pub open spec fn word_le_bytes(w: u32) -> Seq<u8> {
    seq![(w & 0xFF) as u8, ((w >> 8) & 0xFF) as u8, ((w >> 16) & 0xFF) as u8, (w >> 24) as u8]
}

/// The bytes of a word sequence, in stream order.
pub open spec fn words_le_bytes(ws: Seq<u32>) -> Seq<u8>
    decreases ws.len(),
{
    if ws.len() == 0 {
        Seq::empty()
    } else {
        word_le_bytes(ws[0]) + words_le_bytes(ws.drop_first())
    }
}

/// The prefix of a byte sequence before its first zero byte.
pub open spec fn take_to_nul(b: Seq<u8>) -> Seq<u8>
    decreases b.len(),
{
    if b.len() == 0 {
        Seq::empty()
    } else if b[0] == 0 {
        Seq::empty()
    } else {
        seq![b[0]] + take_to_nul(b.drop_first())
    }
}

/// The debug-name bytes held in a string operand: the operand words'
/// bytes up to the terminating zero.
pub open spec fn spec_name_bytes(ops: Seq<u32>) -> Seq<u8> {
    take_to_nul(words_le_bytes(ops))
}

/// The record a type-defining instruction contributes: its result ID and
/// the recorded type, or nothing when the opcode does not define a type
/// or carries too few operands to be read.
pub open spec fn spec_type_of_op(op: u32, ops: Seq<u32>) -> Option<(u32, TypeDesc)> {
    if (op == OP_TYPE_VOID || op == OP_TYPE_BOOL || op == OP_TYPE_INT || op == OP_TYPE_FLOAT
        || op == OP_TYPE_VECTOR || op == OP_TYPE_MATRIX || op == OP_TYPE_OPAQUE) && ops.len() >= 1 {
        Some((ops[0], TypeDesc::Other))
    } else if op == OP_TYPE_SAMPLER && ops.len() >= 1 {
        Some((ops[0], TypeDesc::Sampler))
    } else if op == OP_TYPE_STRUCT && ops.len() >= 1 {
        Some((ops[0], TypeDesc::Struct))
    } else if op == OP_TYPE_IMAGE && ops.len() >= 8 {
        Some(
            (
                ops[0],
                TypeDesc::Image {
                    dim: ops[2],
                    depth: ops[3],
                    arrayed: ops[4],
                    ms: ops[5],
                    sampled: ops[6],
                },
            ),
        )
    } else if op == OP_TYPE_SAMPLED_IMAGE && ops.len() >= 2 {
        Some((ops[0], TypeDesc::SampledImage { image: ops[1] }))
    } else if op == OP_TYPE_ARRAY && ops.len() >= 3 {
        Some((ops[0], TypeDesc::Array { elem: ops[1], length_id: ops[2] }))
    } else if op == OP_TYPE_RUNTIME_ARRAY && ops.len() >= 2 {
        Some((ops[0], TypeDesc::RuntimeArray { elem: ops[1] }))
    } else if op == OP_TYPE_POINTER && ops.len() >= 3 {
        Some((ops[0], TypeDesc::Pointer { storage: ops[1], pointee: ops[2] }))
    } else {
        None
    }
}

/// How one instruction changes the tables: a type or variable definition
/// is recorded under its fresh ID or rejected as a duplicate, a constant,
/// a decoration or a debug name is appended, and anything else is
/// skipped.
pub open spec fn spec_apply(t: TablesView, op: u32, ops: Seq<u32>) -> Result<TablesView, Error> {
    match spec_type_of_op(op, ops) {
        Some((rid, td)) => {
            if alist_lookup(t.types, rid) is Some {
                Err(Error::DuplicateDefinition)
            } else {
                Ok(TablesView { types: t.types.push((rid, td)), ..t })
            }
        },
        None => {
            if op == OP_CONSTANT && ops.len() >= 3 {
                Ok(TablesView { constants: t.constants.push((ops[1], ops[2])), ..t })
            } else if op == OP_VARIABLE && ops.len() >= 3 {
                if alist_lookup(t.variables, ops[1]) is Some {
                    Err(Error::DuplicateDefinition)
                } else {
                    Ok(
                        TablesView {
                            variables: t.variables.push(
                                (ops[1], VarDecl { type_id: ops[0], storage: ops[2] }),
                            ),
                            ..t
                        },
                    )
                }
            } else if op == OP_DECORATE && ops.len() >= 2 {
                Ok(
                    TablesView {
                        decorations: t.decorations.push(
                            DecEntry {
                                target: ops[0],
                                dec: ops[1],
                                literal: if ops.len() >= 3 {
                                    ops[2]
                                } else {
                                    0
                                },
                            },
                        ),
                        ..t
                    },
                )
            } else if op == OP_NAME && ops.len() >= 1 {
                Ok(TablesView { names: t.names.push((ops[0], spec_name_bytes(ops.skip(1)))), ..t })
            } else {
                Ok(t)
            }
        },
    }
}

/// The tables after consuming the instruction stream from word `i` to the
/// end, starting from tables `t`: each instruction's first word gives its
/// word count and opcode; a zero word count or one that runs past the end
/// of the buffer truncates the stream.
pub open spec fn spec_run(t: TablesView, words: Seq<u32>, i: nat) -> Result<TablesView, Error>
    decreases words.len() - i,
{
    if i >= words.len() {
        Ok(t)
    } else {
        let first = words[i as int];
        let wc = (first >> 16) as nat;
        let op = first & 0xFFFF;
        if wc == 0 {
            Err(Error::TruncatedStream)
        } else if i + wc > words.len() {
            Err(Error::TruncatedStream)
        } else {
            match spec_apply(t, op, words.subrange(i as int + 1, (i + wc) as int)) {
                Ok(t2) => spec_run(t2, words, i + wc),
                Err(e) => Err(e),
            }
        }
    }
}

/// Appending a word appends its bytes.
proof fn lemma_words_le_bytes_push(ws: Seq<u32>, w: u32)
    ensures
        words_le_bytes(ws.push(w)) == words_le_bytes(ws) + word_le_bytes(w),
    decreases ws.len(),
{
    if ws.len() == 0 {
        assert(ws.push(w)[0] == w);
        assert(ws.push(w).drop_first() =~= Seq::<u32>::empty());
        assert(words_le_bytes(ws.push(w)) == word_le_bytes(w) + words_le_bytes(
            Seq::<u32>::empty(),
        ));
        assert(word_le_bytes(w) + words_le_bytes(Seq::<u32>::empty()) =~= word_le_bytes(w));
        assert(words_le_bytes(ws) + word_le_bytes(w) =~= word_le_bytes(w));
    } else {
        assert(ws.push(w)[0] == ws[0]);
        assert(ws.push(w).drop_first() =~= ws.drop_first().push(w));
        lemma_words_le_bytes_push(ws.drop_first(), w);
        assert(words_le_bytes(ws.push(w)) =~= words_le_bytes(ws) + word_le_bytes(w));
    }
}

/// Before the first zero byte, `take_to_nul` is exactly the prefix up to
/// that zero (or the whole sequence when no zero occurs).
proof fn lemma_take_to_nul_prefix(b: Seq<u8>, n: int)
    requires
        0 <= n <= b.len(),
        forall|k: int| 0 <= k < n ==> b[k] != 0,
        n == b.len() || b[n] == 0,
    ensures
        take_to_nul(b) == b.take(n),
    decreases n,
{
    if n == 0 {
        assert(b.take(0) =~= Seq::<u8>::empty());
    } else {
        assert(b[0] != 0);
        lemma_take_to_nul_prefix(b.drop_first(), n - 1);
        assert(seq![b[0]] + b.drop_first().take(n - 1) =~= b.take(n));
    }
}

/// Copies a debug-name string operand out of the instruction's operand
/// words, dropping the target-ID operand in front and everything from the
/// terminating zero byte on.
fn name_bytes(ops: &Vec<u32>) -> (r: Vec<u8>)
    requires
        ops@.len() >= 1,
    ensures
        r@ == spec_name_bytes(ops@.skip(1)),
{
    let ghost tail = ops@.skip(1);
    let mut bs: Vec<u8> = Vec::new();
    let mut i: usize = 1;
    proof {
        assert(tail.subrange(0, 0) =~= Seq::<u32>::empty());
    }
    while i < ops.len()
        invariant
            1 <= i <= ops@.len(),
            tail == ops@.skip(1),
            bs@ == words_le_bytes(tail.subrange(0, i - 1)),
        decreases ops@.len() - i,
    {
        let w = ops[i];
        let ghost prefix = tail.subrange(0, i - 1);
        bs.push((w & 0xFF) as u8);
        bs.push(((w >> 8) & 0xFF) as u8);
        bs.push(((w >> 16) & 0xFF) as u8);
        bs.push((w >> 24) as u8);
        proof {
            assert(tail[i - 1] == ops@[i as int]);
            lemma_words_le_bytes_push(prefix, w);
            assert(prefix.push(w) =~= tail.subrange(0, i as int));
            assert(bs@ =~= words_le_bytes(prefix) + word_le_bytes(w));
        }
        i = i + 1;
    }
    proof {
        assert(tail.subrange(0, tail.len() as int) =~= tail);
    }
    let mut n: usize = 0;
    while n < bs.len() && bs[n] != 0
        invariant
            n <= bs@.len(),
            forall|k: int| 0 <= k < n ==> bs@[k] != 0,
        decreases bs@.len() - n,
    {
        n = n + 1;
    }
    proof {
        lemma_take_to_nul_prefix(bs@, n as int);
    }
    let mut out: Vec<u8> = Vec::new();
    let mut k: usize = 0;
    while k < n
        invariant
            k <= n <= bs@.len(),
            out@ == bs@.subrange(0, k as int),
        decreases n - k,
    {
        out.push(bs[k]);
        proof {
            assert(bs@.subrange(0, k + 1 as int) =~= bs@.subrange(0, k as int).push(
                bs@[k as int],
            ));
        }
        k = k + 1;
    }
    proof {
        assert(bs@.subrange(0, n as int) =~= bs@.take(n as int));
    }
    out
}

/// The executable counterpart of `spec_type_of_op`.
fn type_of_op(op: u32, ops: &Vec<u32>) -> (r: Option<(u32, TypeDesc)>)
    ensures
        r == spec_type_of_op(op, ops@),
{
    if (op == OP_TYPE_VOID || op == OP_TYPE_BOOL || op == OP_TYPE_INT || op == OP_TYPE_FLOAT
        || op == OP_TYPE_VECTOR || op == OP_TYPE_MATRIX || op == OP_TYPE_OPAQUE) && ops.len() >= 1 {
        Some((ops[0], TypeDesc::Other))
    } else if op == OP_TYPE_SAMPLER && ops.len() >= 1 {
        Some((ops[0], TypeDesc::Sampler))
    } else if op == OP_TYPE_STRUCT && ops.len() >= 1 {
        Some((ops[0], TypeDesc::Struct))
    } else if op == OP_TYPE_IMAGE && ops.len() >= 8 {
        Some(
            (
                ops[0],
                TypeDesc::Image {
                    dim: ops[2],
                    depth: ops[3],
                    arrayed: ops[4],
                    ms: ops[5],
                    sampled: ops[6],
                },
            ),
        )
    } else if op == OP_TYPE_SAMPLED_IMAGE && ops.len() >= 2 {
        Some((ops[0], TypeDesc::SampledImage { image: ops[1] }))
    } else if op == OP_TYPE_ARRAY && ops.len() >= 3 {
        Some((ops[0], TypeDesc::Array { elem: ops[1], length_id: ops[2] }))
    } else if op == OP_TYPE_RUNTIME_ARRAY && ops.len() >= 2 {
        Some((ops[0], TypeDesc::RuntimeArray { elem: ops[1] }))
    } else if op == OP_TYPE_POINTER && ops.len() >= 3 {
        Some((ops[0], TypeDesc::Pointer { storage: ops[1], pointee: ops[2] }))
    } else {
        None
    }
}

/// Applies one decoded instruction to the tables; on an error the tables
/// are unchanged.
fn apply_inst(t: &mut Tables, op: u32, ops: &Vec<u32>) -> (r: Result<(), Error>)
    ensures
        match r {
            Ok(_) => spec_apply(old(t)@, op, ops@) == Ok::<TablesView, Error>(final(t)@),
            Err(e) => spec_apply(old(t)@, op, ops@) == Err::<TablesView, Error>(e) && final(t)@
                == old(t)@,
        },
{
    match type_of_op(op, ops) {
        Some((rid, td)) => {
            if alist_get(&t.types, rid).is_some() {
                Err(Error::DuplicateDefinition)
            } else {
                t.types.push((rid, td));
                Ok(())
            }
        },
        None => {
            if op == OP_CONSTANT && ops.len() >= 3 {
                t.constants.push((ops[1], ops[2]));
                Ok(())
            } else if op == OP_VARIABLE && ops.len() >= 3 {
                if alist_get(&t.variables, ops[1]).is_some() {
                    Err(Error::DuplicateDefinition)
                } else {
                    t.variables.push((ops[1], VarDecl { type_id: ops[0], storage: ops[2] }));
                    Ok(())
                }
            } else if op == OP_DECORATE && ops.len() >= 2 {
                let literal = if ops.len() >= 3 {
                    ops[2]
                } else {
                    0
                };
                t.decorations.push(DecEntry { target: ops[0], dec: ops[1], literal });
                Ok(())
            } else if op == OP_NAME && ops.len() >= 1 {
                let ghost prev = t.names@;
                let bytes = name_bytes(ops);
                let entry = NameEntry { id: ops[0], bytes };
                proof {
                    lemma_names_view_push(prev, entry);
                }
                t.names.push(entry);
                Ok(())
            } else {
                Ok(())
            }
        },
    }
}

/// Consumes the instruction stream after the header and returns the
/// tables, exactly as `spec_run` describes.
pub fn build_tables(words: &Vec<u32>) -> (r: Result<Tables, Error>)
    requires
        words@.len() >= HEADER_WORDS,
    ensures
        match r {
            Ok(t) => spec_run(empty_tables(), words@, HEADER_WORDS as nat) == Ok::<
                TablesView,
                Error,
            >(t@),
            Err(e) => spec_run(empty_tables(), words@, HEADER_WORDS as nat) == Err::<
                TablesView,
                Error,
            >(e),
        },
{
    let mut t = Tables {
        types: Vec::new(),
        constants: Vec::new(),
        decorations: Vec::new(),
        variables: Vec::new(),
        names: Vec::new(),
    };
    proof {
        assert(names_view(Seq::empty()) =~= Seq::<(u32, Seq<u8>)>::empty());
        assert(t@ == empty_tables());
    }
    let mut i: usize = HEADER_WORDS;
    while i < words.len()
        invariant
            HEADER_WORDS <= i <= words@.len(),
            spec_run(empty_tables(), words@, HEADER_WORDS as nat) == spec_run(
                t@,
                words@,
                i as nat,
            ),
        decreases words@.len() - i,
    {
        let first = words[i];
        let wc = (first >> 16) as usize;
        let op = first & 0xFFFF;
        if wc == 0 {
            return Err(Error::TruncatedStream);
        }
        if wc > words.len() - i {
            return Err(Error::TruncatedStream);
        }
        let end = i + wc;
        let mut ops: Vec<u32> = Vec::new();
        let mut j: usize = i + 1;
        proof {
            assert(words@.subrange(i + 1, i + 1 as int) =~= Seq::<u32>::empty());
        }
        while j < end
            invariant
                i + 1 <= j <= end,
                end == i + wc,
                end <= words@.len(),
                ops@ == words@.subrange(i + 1, j as int),
            decreases end - j,
        {
            ops.push(words[j]);
            proof {
                assert(words@.subrange(i + 1, j + 1 as int) =~= words@.subrange(i + 1, j as int)
                    .push(words@[j as int]));
            }
            j = j + 1;
        }
        let ghost before = t@;
        match apply_inst(&mut t, op, &ops) {
            Ok(_) => {
                proof {
                    assert(spec_run(before, words@, i as nat) == spec_run(
                        t@,
                        words@,
                        (i + wc) as nat,
                    ));
                }
                i = i + wc;
            },
            Err(e) => {
                return Err(e);
            },
        }
    }
    Ok(t)
}

} // verus!
