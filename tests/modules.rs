use emscripten_shim::module_info::{
    align_memory, get_emscripten_memory_size, get_emscripten_metadata, get_emscripten_table_size,
    is_emscripten_module, GlobalDesc, GlobalInit, ImportName, MemoryDesc, ModuleDescriptor,
    ModuleError, TableDesc,
};

fn import(namespace: &str, name: &str) -> ImportName {
    ImportName { namespace: namespace.as_bytes().to_vec(), name: name.as_bytes().to_vec() }
}

fn module(imports: Vec<ImportName>, globals: Vec<GlobalDesc>) -> ModuleDescriptor {
    ModuleDescriptor {
        imported_functions: imports,
        imported_tables: vec![],
        imported_memories: vec![],
        globals,
    }
}

#[test]
fn detects_memcpy_big_import() {
    let m = module(vec![import("env", "abort"), import("env", "emscripten_memcpy_big")], vec![]);
    assert!(is_emscripten_module(&m));
    let m = module(vec![import("env", "_emscripten_memcpy_big")], vec![]);
    assert!(is_emscripten_module(&m));
}

#[test]
fn rejects_module_without_memcpy_big() {
    assert!(!is_emscripten_module(&module(vec![import("env", "abort")], vec![])));
    assert!(!is_emscripten_module(&module(vec![], vec![])));
    assert!(!is_emscripten_module(&module(vec![import("wasi", "emscripten_memcpy_big")], vec![])));
    assert!(!is_emscripten_module(&module(vec![import("env", "emscripten_memcpy_bi")], vec![])));
}

#[test]
fn table_bounds_come_from_first_import() {
    let mut m = module(vec![], vec![]);
    assert_eq!(get_emscripten_table_size(&m), Err(ModuleError::NoImportedTable));
    m.imported_tables = vec![
        TableDesc { minimum: 10, maximum: Some(20) },
        TableDesc { minimum: 1, maximum: None },
    ];
    assert_eq!(get_emscripten_table_size(&m), Ok((10, Some(20))));
}

#[test]
fn memory_bounds_come_from_first_import() {
    let mut m = module(vec![], vec![]);
    assert_eq!(get_emscripten_memory_size(&m), Err(ModuleError::NoImportedMemory));
    m.imported_memories = vec![MemoryDesc { minimum: 256, maximum: None, shared: true }];
    assert_eq!(get_emscripten_memory_size(&m), Ok((256, None, true)));
}

fn global(index: u32, init: GlobalInit) -> GlobalDesc {
    GlobalDesc { index, init }
}

#[test]
fn metadata_from_two_highest_globals() {
    let m = module(
        vec![],
        vec![global(3, GlobalInit::ConstI32(1000)), global(5, GlobalInit::ConstI32(5000))],
    );
    assert_eq!(get_emscripten_metadata(&m), Some((4976, 976)));
    let m = module(
        vec![],
        vec![
            global(5, GlobalInit::ConstI32(5000)),
            global(0, GlobalInit::Other),
            global(3, GlobalInit::ConstI32(1000)),
        ],
    );
    assert_eq!(get_emscripten_metadata(&m), Some((4976, 976)));
}

#[test]
fn metadata_values_are_rounded_up() {
    let m = module(
        vec![],
        vec![global(1, GlobalInit::ConstI32(33)), global(2, GlobalInit::ConstI32(50))],
    );
    assert_eq!(get_emscripten_metadata(&m), Some((32, 16)));
    assert_eq!(align_memory(0), 0);
    assert_eq!(align_memory(1), 16);
    assert_eq!(align_memory(16), 16);
    assert_eq!(align_memory(u32::MAX - 15), u32::MAX - 15);
}

#[test]
fn metadata_needs_constant_integer_globals() {
    let m = module(
        vec![],
        vec![global(3, GlobalInit::ConstI32(1000)), global(5, GlobalInit::Other)],
    );
    assert_eq!(get_emscripten_metadata(&m), None);
    let m = module(
        vec![],
        vec![global(3, GlobalInit::Other), global(5, GlobalInit::ConstI32(1000))],
    );
    assert_eq!(get_emscripten_metadata(&m), None);
}

#[test]
fn metadata_needs_two_globals() {
    assert_eq!(get_emscripten_metadata(&module(vec![], vec![])), None);
    let m = module(vec![], vec![global(7, GlobalInit::ConstI32(1000))]);
    assert_eq!(get_emscripten_metadata(&m), None);
}

#[test]
fn metadata_below_offset_yields_nothing() {
    let m = module(
        vec![],
        vec![global(3, GlobalInit::ConstI32(1000)), global(5, GlobalInit::ConstI32(31))],
    );
    assert_eq!(get_emscripten_metadata(&m), None);
    let m = module(
        vec![],
        vec![global(3, GlobalInit::ConstI32(-1)), global(5, GlobalInit::ConstI32(64))],
    );
    assert_eq!(get_emscripten_metadata(&m), Some((32, 4294967264)));
}
