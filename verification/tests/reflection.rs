use spirv_reflect::create_shader_module;
use spirv_reflect::error::Error;
use spirv_reflect::module::build;
use spirv_reflect::types::ResourceKind;
use spirv_reflect::ShaderModule;

const OP_NAME: u32 = 5;
const OP_MEMORY_MODEL: u32 = 14;
const OP_CAPABILITY: u32 = 17;
const OP_TYPE_VOID: u32 = 19;
const OP_TYPE_INT: u32 = 21;
const OP_TYPE_IMAGE: u32 = 25;
const OP_TYPE_SAMPLER: u32 = 26;
const OP_TYPE_SAMPLED_IMAGE: u32 = 27;
const OP_TYPE_ARRAY: u32 = 28;
const OP_TYPE_RUNTIME_ARRAY: u32 = 29;
const OP_TYPE_STRUCT: u32 = 30;
const OP_TYPE_POINTER: u32 = 32;
const OP_CONSTANT: u32 = 43;
const OP_VARIABLE: u32 = 59;
const OP_DECORATE: u32 = 71;

const SC_UNIFORM_CONSTANT: u32 = 0;
const SC_UNIFORM: u32 = 2;
const SC_PUSH_CONSTANT: u32 = 9;
const SC_STORAGE_BUFFER: u32 = 12;

const DEC_BUFFER_BLOCK: u32 = 3;
const DEC_BINDING: u32 = 33;
const DEC_DESCRIPTOR_SET: u32 = 34;
const DEC_INPUT_ATTACHMENT_INDEX: u32 = 43;

fn inst(op: u32, operands: &[u32]) -> Vec<u32> {
    let mut v = vec![((operands.len() as u32 + 1) << 16) | op];
    v.extend_from_slice(operands);
    v
}

fn header() -> Vec<u32> {
    vec![0x0723_0203, 0x0001_0300, 0, 100, 0]
}

fn to_bytes(words: &[u32]) -> Vec<u8> {
    let mut out = Vec::new();
    for w in words {
        out.extend_from_slice(&w.to_le_bytes());
    }
    out
}

fn module_bytes(instrs: &[Vec<u32>]) -> Vec<u8> {
    let mut words = header();
    for i in instrs {
        words.extend_from_slice(i);
    }
    to_bytes(&words)
}

/// A uniform buffer at (set, binding) backed by struct type `sid`,
/// pointer type `pid` and variable `vid`.
fn uniform_buffer(sid: u32, pid: u32, vid: u32, set: u32, binding: u32) -> Vec<Vec<u32>> {
    vec![
        inst(OP_DECORATE, &[vid, DEC_DESCRIPTOR_SET, set]),
        inst(OP_DECORATE, &[vid, DEC_BINDING, binding]),
        inst(OP_TYPE_STRUCT, &[sid]),
        inst(OP_TYPE_POINTER, &[pid, SC_UNIFORM, sid]),
        inst(OP_VARIABLE, &[pid, vid, SC_UNIFORM]),
    ]
}

#[test]
fn empty_module_has_no_sets() {
    let bytes = to_bytes(&header());
    let sm = create_shader_module(&bytes).unwrap();
    assert_eq!(sm.descriptor_set_count(), Ok(0));
    assert_eq!(sm.descriptor_sets().unwrap().len(), 0);
}

#[test]
fn non_resource_variables_yield_empty_result() {
    // A private variable and some skipped instructions: success with an
    // empty result, not an error.
    let bytes = module_bytes(&[
        inst(OP_CAPABILITY, &[1]),
        inst(OP_MEMORY_MODEL, &[0, 1]),
        inst(OP_TYPE_VOID, &[10]),
        inst(OP_TYPE_POINTER, &[11, 7, 10]),
        inst(OP_VARIABLE, &[11, 12, 7]),
    ]);
    let sm = create_shader_module(&bytes).unwrap();
    assert_eq!(sm.descriptor_set_count(), Ok(0));
    assert_eq!(sm.descriptor_sets().unwrap().len(), 0);
}

#[test]
fn push_constant_variable_is_skipped() {
    // Push-constant storage carries no set or binding: skipped, no error.
    let bytes = module_bytes(&[
        inst(OP_TYPE_STRUCT, &[10]),
        inst(OP_TYPE_POINTER, &[11, SC_PUSH_CONSTANT, 10]),
        inst(OP_VARIABLE, &[11, 12, SC_PUSH_CONSTANT]),
    ]);
    let sm = create_shader_module(&bytes).unwrap();
    assert_eq!(sm.descriptor_set_count(), Ok(0));
}

#[test]
fn unaligned_buffer_rejected() {
    let mut bytes = to_bytes(&header());
    bytes.push(0);
    assert_eq!(create_shader_module(&bytes).err().unwrap(), Error::UnalignedBuffer);
}

#[test]
fn unaligned_check_comes_before_header_check() {
    // Three bytes of garbage: rejected for alignment, not for the header.
    assert_eq!(create_shader_module(&[1, 2, 3]).err().unwrap(), Error::UnalignedBuffer);
}

#[test]
fn truncated_stream_rejected() {
    // The final instruction declares three words but only one is present.
    let mut words = header();
    words.push((3 << 16) | OP_TYPE_VOID);
    assert_eq!(build(&to_bytes(&words)).err().unwrap(), Error::TruncatedStream);
}

#[test]
fn zero_word_count_rejected() {
    let mut words = header();
    words.push(OP_TYPE_VOID); // word count 0
    assert_eq!(build(&to_bytes(&words)).err().unwrap(), Error::TruncatedStream);
}

#[test]
fn wrong_magic_rejected() {
    let words = vec![0x1234_5678, 0x0001_0300, 0, 100, 0];
    assert_eq!(build(&to_bytes(&words)).err().unwrap(), Error::MalformedHeader);
}

#[test]
fn short_header_rejected() {
    let words = vec![0x0723_0203, 0x0001_0300, 0, 100];
    assert_eq!(build(&to_bytes(&words)).err().unwrap(), Error::MalformedHeader);
}

#[test]
fn unsupported_version_rejected() {
    let words = vec![0x0723_0203, 0x0002_0000, 0, 100, 0];
    assert_eq!(build(&to_bytes(&words)).err().unwrap(), Error::MalformedHeader);
}

#[test]
fn zero_bound_rejected() {
    let words = vec![0x0723_0203, 0x0001_0300, 0, 0, 0];
    assert_eq!(build(&to_bytes(&words)).err().unwrap(), Error::MalformedHeader);
}

#[test]
fn missing_binding_decoration_rejected() {
    // A uniform-buffer variable with a descriptor set but no binding.
    let bytes = module_bytes(&[
        inst(OP_DECORATE, &[12, DEC_DESCRIPTOR_SET, 0]),
        inst(OP_TYPE_STRUCT, &[10]),
        inst(OP_TYPE_POINTER, &[11, SC_UNIFORM, 10]),
        inst(OP_VARIABLE, &[11, 12, SC_UNIFORM]),
    ]);
    assert_eq!(create_shader_module(&bytes).err().unwrap(), Error::MissingBindingDecoration);
}

#[test]
fn missing_set_decoration_rejected() {
    let bytes = module_bytes(&[
        inst(OP_DECORATE, &[12, DEC_BINDING, 0]),
        inst(OP_TYPE_STRUCT, &[10]),
        inst(OP_TYPE_POINTER, &[11, SC_UNIFORM, 10]),
        inst(OP_VARIABLE, &[11, 12, SC_UNIFORM]),
    ]);
    assert_eq!(create_shader_module(&bytes).err().unwrap(), Error::MissingBindingDecoration);
}

#[test]
fn duplicate_binding_slot_rejected() {
    let mut instrs = uniform_buffer(10, 11, 12, 0, 0);
    instrs.extend(uniform_buffer(20, 21, 22, 0, 0));
    let bytes = module_bytes(&instrs);
    assert_eq!(create_shader_module(&bytes).err().unwrap(), Error::DuplicateBindingSlot);
}

#[test]
fn duplicate_type_definition_rejected() {
    let bytes = module_bytes(&[inst(OP_TYPE_VOID, &[10]), inst(OP_TYPE_STRUCT, &[10])]);
    assert_eq!(build(&bytes).err().unwrap(), Error::DuplicateDefinition);
}

#[test]
fn duplicate_variable_definition_rejected() {
    let bytes = module_bytes(&[
        inst(OP_TYPE_STRUCT, &[10]),
        inst(OP_TYPE_POINTER, &[11, SC_UNIFORM, 10]),
        inst(OP_VARIABLE, &[11, 12, SC_PUSH_CONSTANT]),
        inst(OP_VARIABLE, &[11, 12, SC_PUSH_CONSTANT]),
    ]);
    assert_eq!(create_shader_module(&bytes).err().unwrap(), Error::DuplicateDefinition);
}

#[test]
fn unresolvable_pointee_rejected() {
    // A decorated uniform variable whose pointee is a plain integer type.
    let bytes = module_bytes(&[
        inst(OP_DECORATE, &[12, DEC_DESCRIPTOR_SET, 0]),
        inst(OP_DECORATE, &[12, DEC_BINDING, 0]),
        inst(OP_TYPE_INT, &[10, 32, 0]),
        inst(OP_TYPE_POINTER, &[11, SC_UNIFORM, 10]),
        inst(OP_VARIABLE, &[11, 12, SC_UNIFORM]),
    ]);
    assert_eq!(create_shader_module(&bytes).err().unwrap(), Error::UnresolvableResourceType);
}

#[test]
fn missing_array_length_constant_rejected() {
    // An array type whose length constant is never defined.
    let bytes = module_bytes(&[
        inst(OP_DECORATE, &[13, DEC_DESCRIPTOR_SET, 0]),
        inst(OP_DECORATE, &[13, DEC_BINDING, 0]),
        inst(OP_TYPE_SAMPLER, &[10]),
        inst(OP_TYPE_ARRAY, &[11, 10, 99]),
        inst(OP_TYPE_POINTER, &[12, SC_UNIFORM_CONSTANT, 11]),
        inst(OP_VARIABLE, &[12, 13, SC_UNIFORM_CONSTANT]),
    ]);
    assert_eq!(create_shader_module(&bytes).err().unwrap(), Error::UnresolvableResourceType);
}

#[test]
fn code_size_round_trip() {
    let bytes = module_bytes(&uniform_buffer(10, 11, 12, 0, 0));
    let sm = create_shader_module(&bytes).unwrap();
    assert_eq!(sm.code_size(), bytes.len());
    assert_eq!(sm.code_slice().len() * 4, bytes.len());
    assert_eq!(sm.code_slice()[0], 0x0723_0203);
}

#[test]
fn descriptor_sets_deterministic() {
    let mut instrs = uniform_buffer(10, 11, 12, 0, 0);
    instrs.extend(uniform_buffer(20, 21, 22, 1, 3));
    let sm = create_shader_module(&module_bytes(&instrs)).unwrap();
    let first = sm.descriptor_sets().unwrap();
    let second = sm.descriptor_sets().unwrap();
    assert_eq!(first, second);
}

#[test]
fn order_invariance() {
    // The same two resources, declared in opposite instruction order,
    // resolve to identical descriptor sets.
    let mut a = uniform_buffer(10, 11, 12, 0, 1);
    a.extend(uniform_buffer(20, 21, 22, 1, 0));
    let mut b = uniform_buffer(20, 21, 22, 1, 0);
    b.extend(uniform_buffer(10, 11, 12, 0, 1));
    let sa = create_shader_module(&module_bytes(&a)).unwrap().descriptor_sets().unwrap();
    let sb = create_shader_module(&module_bytes(&b)).unwrap().descriptor_sets().unwrap();
    assert_eq!(sa, sb);
}

#[test]
fn bindings_sorted_within_set() {
    let mut instrs = uniform_buffer(10, 11, 12, 0, 2);
    instrs.extend(uniform_buffer(20, 21, 22, 0, 0));
    instrs.extend(uniform_buffer(30, 31, 32, 0, 1));
    let sets = create_shader_module(&module_bytes(&instrs)).unwrap().descriptor_sets().unwrap();
    assert_eq!(sets.len(), 1);
    assert_eq!(sets[0].set, 0);
    let bindings: Vec<u32> = sets[0].bindings.iter().map(|b| b.binding).collect();
    assert_eq!(bindings, vec![0, 1, 2]);
}

#[test]
fn sets_sorted_by_index() {
    let mut instrs = uniform_buffer(10, 11, 12, 3, 0);
    instrs.extend(uniform_buffer(20, 21, 22, 0, 0));
    let sets = create_shader_module(&module_bytes(&instrs)).unwrap().descriptor_sets().unwrap();
    assert_eq!(sets.len(), 2);
    assert_eq!(sets[0].set, 0);
    assert_eq!(sets[1].set, 3);
}

#[test]
fn classification_of_resource_kinds() {
    let instrs = vec![
        // A sampler at (0, 0).
        inst(OP_DECORATE, &[13, DEC_DESCRIPTOR_SET, 0]),
        inst(OP_DECORATE, &[13, DEC_BINDING, 0]),
        inst(OP_TYPE_SAMPLER, &[10]),
        inst(OP_TYPE_POINTER, &[11, SC_UNIFORM_CONSTANT, 10]),
        inst(OP_VARIABLE, &[11, 13, SC_UNIFORM_CONSTANT]),
        // A combined image sampler at (0, 1): 2D image, arrayed.
        inst(OP_DECORATE, &[24, DEC_DESCRIPTOR_SET, 0]),
        inst(OP_DECORATE, &[24, DEC_BINDING, 1]),
        inst(OP_TYPE_IMAGE, &[20, 15, 1, 0, 1, 0, 1, 0]),
        inst(OP_TYPE_SAMPLED_IMAGE, &[21, 20]),
        inst(OP_TYPE_POINTER, &[22, SC_UNIFORM_CONSTANT, 21]),
        inst(OP_VARIABLE, &[22, 24, SC_UNIFORM_CONSTANT]),
        // A storage image at (1, 0): declared for storage access.
        inst(OP_DECORATE, &[33, DEC_DESCRIPTOR_SET, 1]),
        inst(OP_DECORATE, &[33, DEC_BINDING, 0]),
        inst(OP_TYPE_IMAGE, &[30, 15, 1, 0, 0, 0, 2, 0]),
        inst(OP_TYPE_POINTER, &[31, SC_UNIFORM_CONSTANT, 30]),
        inst(OP_VARIABLE, &[31, 33, SC_UNIFORM_CONSTANT]),
        // A storage buffer at (1, 1), in storage-buffer storage.
        inst(OP_DECORATE, &[43, DEC_DESCRIPTOR_SET, 1]),
        inst(OP_DECORATE, &[43, DEC_BINDING, 1]),
        inst(OP_TYPE_STRUCT, &[40]),
        inst(OP_TYPE_POINTER, &[41, SC_STORAGE_BUFFER, 40]),
        inst(OP_VARIABLE, &[41, 43, SC_STORAGE_BUFFER]),
        // A legacy storage buffer at (2, 0): uniform + buffer-block.
        inst(OP_DECORATE, &[53, DEC_DESCRIPTOR_SET, 2]),
        inst(OP_DECORATE, &[53, DEC_BINDING, 0]),
        inst(OP_DECORATE, &[50, DEC_BUFFER_BLOCK]),
        inst(OP_TYPE_STRUCT, &[50]),
        inst(OP_TYPE_POINTER, &[51, SC_UNIFORM, 50]),
        inst(OP_VARIABLE, &[51, 53, SC_UNIFORM]),
    ];
    let sets = create_shader_module(&module_bytes(&instrs)).unwrap().descriptor_sets().unwrap();
    assert_eq!(sets.len(), 3);
    assert_eq!(sets[0].bindings[0].kind, ResourceKind::Sampler);
    assert_eq!(sets[0].bindings[1].kind, ResourceKind::CombinedImageSampler);
    assert_eq!(sets[0].bindings[1].dim, 1);
    assert!(sets[0].bindings[1].arrayed);
    assert!(!sets[0].bindings[1].multisampled);
    assert_eq!(sets[1].bindings[0].kind, ResourceKind::StorageImage);
    assert_eq!(sets[1].bindings[1].kind, ResourceKind::StorageBuffer);
    assert_eq!(sets[2].bindings[0].kind, ResourceKind::StorageBuffer);
    for set in &sets {
        for b in &set.bindings {
            assert_eq!(b.count, 1);
        }
    }
}

#[test]
fn input_attachment_classification() {
    // A subpass-data image with an input-attachment index.
    let instrs = vec![
        inst(OP_DECORATE, &[13, DEC_DESCRIPTOR_SET, 0]),
        inst(OP_DECORATE, &[13, DEC_BINDING, 0]),
        inst(OP_DECORATE, &[13, DEC_INPUT_ATTACHMENT_INDEX, 4]),
        inst(OP_TYPE_IMAGE, &[10, 15, 6, 0, 0, 0, 2, 0]),
        inst(OP_TYPE_POINTER, &[11, SC_UNIFORM_CONSTANT, 10]),
        inst(OP_VARIABLE, &[11, 13, SC_UNIFORM_CONSTANT]),
    ];
    let sets = create_shader_module(&module_bytes(&instrs)).unwrap().descriptor_sets().unwrap();
    assert_eq!(sets[0].bindings[0].kind, ResourceKind::InputAttachment);
    assert_eq!(sets[0].bindings[0].input_attachment_index, 4);
}

#[test]
fn uniform_buffer_classification_and_fields() {
    let bytes = module_bytes(&uniform_buffer(10, 11, 12, 4, 7));
    let sets = create_shader_module(&bytes).unwrap().descriptor_sets().unwrap();
    assert_eq!(sets.len(), 1);
    assert_eq!(sets[0].set, 4);
    let b = &sets[0].bindings[0];
    assert_eq!(b.kind, ResourceKind::UniformBuffer);
    assert_eq!(b.set, 4);
    assert_eq!(b.binding, 7);
    assert_eq!(b.id, 12);
    assert_eq!(b.count, 1);
    assert_eq!(b.name, None);
}

#[test]
fn array_count_read_from_constant() {
    // An array of four samplers.
    let instrs = vec![
        inst(OP_DECORATE, &[14, DEC_DESCRIPTOR_SET, 0]),
        inst(OP_DECORATE, &[14, DEC_BINDING, 0]),
        inst(OP_TYPE_INT, &[8, 32, 0]),
        inst(OP_CONSTANT, &[8, 9, 4]),
        inst(OP_TYPE_SAMPLER, &[10]),
        inst(OP_TYPE_ARRAY, &[11, 10, 9]),
        inst(OP_TYPE_POINTER, &[12, SC_UNIFORM_CONSTANT, 11]),
        inst(OP_VARIABLE, &[12, 14, SC_UNIFORM_CONSTANT]),
    ];
    let sets = create_shader_module(&module_bytes(&instrs)).unwrap().descriptor_sets().unwrap();
    let b = &sets[0].bindings[0];
    assert_eq!(b.kind, ResourceKind::Sampler);
    assert_eq!(b.count, 4);
}

#[test]
fn runtime_array_count_is_unbounded_sentinel() {
    let instrs = vec![
        inst(OP_DECORATE, &[14, DEC_DESCRIPTOR_SET, 0]),
        inst(OP_DECORATE, &[14, DEC_BINDING, 0]),
        inst(OP_TYPE_SAMPLER, &[10]),
        inst(OP_TYPE_RUNTIME_ARRAY, &[11, 10]),
        inst(OP_TYPE_POINTER, &[12, SC_UNIFORM_CONSTANT, 11]),
        inst(OP_VARIABLE, &[12, 14, SC_UNIFORM_CONSTANT]),
    ];
    let sets = create_shader_module(&module_bytes(&instrs)).unwrap().descriptor_sets().unwrap();
    assert_eq!(sets[0].bindings[0].count, 0);
}

#[test]
fn debug_name_copied_out() {
    // "tex" in one string word: 't' 'e' 'x' NUL.
    let name_word = u32::from_le_bytes([b't', b'e', b'x', 0]);
    let mut instrs = vec![inst(OP_NAME, &[12, name_word])];
    instrs.extend(uniform_buffer(10, 11, 12, 0, 0));
    let sets = create_shader_module(&module_bytes(&instrs)).unwrap().descriptor_sets().unwrap();
    assert_eq!(sets[0].bindings[0].name, Some(b"tex".to_vec()));
}

#[test]
fn default_module_is_empty() {
    let sm = ShaderModule::default();
    assert_eq!(sm.code_size(), 0);
    assert_eq!(sm.descriptor_set_count(), Ok(0));
    assert_eq!(sm.descriptor_sets().unwrap().len(), 0);
}

#[test]
fn set_lookup_by_index() {
    let mut instrs = uniform_buffer(10, 11, 12, 2, 5);
    instrs.extend(uniform_buffer(20, 21, 22, 2, 1));
    let sm = create_shader_module(&module_bytes(&instrs)).unwrap();
    let bindings = sm.descriptor_set(2);
    assert_eq!(bindings.len(), 2);
    assert_eq!(bindings[0].binding, 1);
    assert_eq!(bindings[1].binding, 5);
}

#[test]
fn set_lookup_of_undeclared_index_is_empty() {
    let sm = create_shader_module(&module_bytes(&uniform_buffer(10, 11, 12, 0, 0))).unwrap();
    assert_eq!(sm.descriptor_set(7).len(), 0);
    assert_eq!(ShaderModule::default().descriptor_set(0).len(), 0);
}
