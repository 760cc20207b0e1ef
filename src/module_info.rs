//! What the shim reads of a loaded module: its imports, the bounds of its
//! imported table and memory, and the metadata globals that the Emscripten
//! toolchain emits.
use vstd::prelude::*;
use crate::memory::bytes_eq;

verus! {

/// A function import: its namespace and field name, as bytes.
#[derive(Clone, Debug)]
pub struct ImportName {
    pub namespace: Vec<u8>,
    pub name: Vec<u8>,
}

/// Size bounds of an imported table, in elements.
#[derive(Clone, Copy, Debug, PartialEq, Eq, Structural)]
pub struct TableDesc {
    pub minimum: u32,
    pub maximum: Option<u32>,
}

/// Size bounds of an imported memory, in 64 KiB pages, and whether it is
/// shared.
#[derive(Clone, Copy, Debug, PartialEq, Eq, Structural)]
pub struct MemoryDesc {
    pub minimum: u32,
    pub maximum: Option<u32>,
    pub shared: bool,
}

/// How a global is initialized.
#[derive(Clone, Copy, Debug, PartialEq, Eq, Structural)]
pub enum GlobalInit {
    /// A constant 32-bit integer.
    ConstI32(i32),
    /// Any other initializer: a constant of another type, or another global.
    Other,
}

/// A global of the module, with its index.
#[derive(Clone, Copy, Debug, PartialEq, Eq, Structural)]
pub struct GlobalDesc {
    pub index: u32,
    pub init: GlobalInit,
}

/// The parts of a module's description that the shim inspects.
#[derive(Clone, Debug)]
pub struct ModuleDescriptor {
    pub imported_functions: Vec<ImportName>,
    pub imported_tables: Vec<TableDesc>,
    pub imported_memories: Vec<MemoryDesc>,
    pub globals: Vec<GlobalDesc>,
}

/// Why a module cannot run under this ABI.
#[derive(Clone, Copy, Debug, PartialEq, Eq, Structural)]
pub enum ModuleError {
    /// The module imports no table.
    NoImportedTable,
    /// The module imports no memory.
    NoImportedMemory,
}

/// `env`, the namespace of the toolchain's host imports.
pub open spec fn env_namespace() -> Seq<u8> {
    seq![101u8, 110, 118]
}

/// `emscripten_memcpy_big`.
pub open spec fn memcpy_big() -> Seq<u8> {
    seq![
        101u8, 109, 115, 99, 114, 105, 112, 116, 101, 110, 95, 109, 101, 109, 99, 112, 121, 95,
        98, 105, 103,
    ]
}

/// `_emscripten_memcpy_big`.
pub open spec fn memcpy_big_underscored() -> Seq<u8> {
    seq![95u8] + memcpy_big()
}

/// Whether an import is the toolchain's `memcpy_big` helper.
pub open spec fn is_memcpy_big_import(namespace: Seq<u8>, name: Seq<u8>) -> bool {
    namespace == env_namespace() && (name == memcpy_big() || name == memcpy_big_underscored())
}

fn env_namespace_bytes() -> (r: Vec<u8>)
    ensures
        r@ == env_namespace(),
{
    let r = vec![101u8, 110, 118];
    assert(r@ =~= env_namespace());
    r
}

fn memcpy_big_bytes() -> (r: Vec<u8>)
    ensures
        r@ == memcpy_big(),
{
    let r = vec![
        101u8, 109, 115, 99, 114, 105, 112, 116, 101, 110, 95, 109, 101, 109, 99, 112, 121, 95,
        98, 105, 103,
    ];
    assert(r@ =~= memcpy_big());
    r
}

fn memcpy_big_underscored_bytes() -> (r: Vec<u8>)
    ensures
        r@ == memcpy_big_underscored(),
{
    let mut r = vec![95u8];
    let mut rest = memcpy_big_bytes();
    r.append(&mut rest);
    assert(r@ =~= memcpy_big_underscored());
    r
}

/// Whether the module was built by the Emscripten toolchain: it imports
/// `emscripten_memcpy_big` or `_emscripten_memcpy_big` from `env`.
pub fn is_emscripten_module(module: &ModuleDescriptor) -> (r: bool)
    ensures
        r == exists|i: int|
            0 <= i < module.imported_functions@.len() && is_memcpy_big_import(
                #[trigger] module.imported_functions@[i].namespace@,
                module.imported_functions@[i].name@,
            ),
{
    let env = env_namespace_bytes();
    let plain = memcpy_big_bytes();
    let underscored = memcpy_big_underscored_bytes();
    let imports = &module.imported_functions;
    let mut i: usize = 0;
    while i < imports.len()
        invariant
            i <= imports@.len(),
            imports@ == module.imported_functions@,
            env@ == env_namespace(),
            plain@ == memcpy_big(),
            underscored@ == memcpy_big_underscored(),
            forall|k: int|
                0 <= k < i ==> !is_memcpy_big_import(
                    #[trigger] imports@[k].namespace@,
                    imports@[k].name@,
                ),
        decreases imports@.len() - i,
    {
        let import = &imports[i];
        let name = import.name.as_slice();
        if (bytes_eq(name, underscored.as_slice()) || bytes_eq(name, plain.as_slice())) && bytes_eq(
            import.namespace.as_slice(),
            env.as_slice(),
        ) {
            assert(is_memcpy_big_import(
                module.imported_functions@[i as int].namespace@,
                module.imported_functions@[i as int].name@,
            ));
            return true;
        }
        i = i + 1;
    }
    false
}

/// The bounds of the module's first imported table.
pub fn get_emscripten_table_size(module: &ModuleDescriptor) -> (r: Result<
    (u32, Option<u32>),
    ModuleError,
>)
    ensures
        module.imported_tables@.len() == 0 ==> r == Err::<(u32, Option<u32>), ModuleError>(
            ModuleError::NoImportedTable,
        ),
        module.imported_tables@.len() > 0 ==> r == Ok::<(u32, Option<u32>), ModuleError>(
            (module.imported_tables@[0].minimum, module.imported_tables@[0].maximum),
        ),
{
    if module.imported_tables.len() == 0 {
        return Err(ModuleError::NoImportedTable);
    }
    let table = module.imported_tables[0];
    Ok((table.minimum, table.maximum))
}

/// The bounds, in pages, and the shared flag of the module's first imported
/// memory.
pub fn get_emscripten_memory_size(module: &ModuleDescriptor) -> (r: Result<
    (u32, Option<u32>, bool),
    ModuleError,
>)
    ensures
        module.imported_memories@.len() == 0 ==> r == Err::<
            (u32, Option<u32>, bool),
            ModuleError,
        >(ModuleError::NoImportedMemory),
        module.imported_memories@.len() > 0 ==> r == Ok::<(u32, Option<u32>, bool), ModuleError>(
            (
                module.imported_memories@[0].minimum,
                module.imported_memories@[0].maximum,
                module.imported_memories@[0].shared,
            ),
        ),
{
    if module.imported_memories.len() == 0 {
        return Err(ModuleError::NoImportedMemory);
    }
    let memory = module.imported_memories[0];
    Ok((memory.minimum, memory.maximum, memory.shared))
}

/// `v` rounded up to a multiple of 16, the allocator's alignment.
pub open spec fn align16(v: int) -> int {
    (v + 15) / 16 * 16
}

/// Rounds `ptr` up to the allocator's 16-byte alignment.
pub fn align_memory(ptr: u32) -> (r: u32)
    requires
        ptr <= u32::MAX - 15,
    ensures
        r == align16(ptr as int),
{
    let bumped: u32 = ptr + 15;
    let r = bumped & !15u32;
    assert((bumped & !15u32) == (bumped / 16) * 16) by (bit_vector);
    r
}

/// Whether `i` is the position of the global with the largest index (the
/// first such position).
pub open spec fn is_max_at(g: Seq<GlobalDesc>, i: int) -> bool {
    &&& 0 <= i < g.len()
    &&& forall|k: int| 0 <= k < g.len() ==> #[trigger] g[k].index <= g[i].index
    &&& forall|k: int| 0 <= k < i ==> #[trigger] g[k].index != g[i].index
}

/// Whether `j` is the position of the global with the largest index below
/// that of position `i` (the first such position).
pub open spec fn is_second_at(g: Seq<GlobalDesc>, i: int, j: int) -> bool {
    &&& 0 <= j < g.len()
    &&& g[j].index != g[i].index
    &&& forall|k: int|
        0 <= k < g.len() && #[trigger] g[k].index != g[i].index ==> g[k].index <= g[j].index
    &&& forall|k: int| 0 <= k < j ==> #[trigger] g[k].index != g[j].index
}

/// The metadata value that a global's initializer yields: a constant 32-bit
/// integer, less 32, rounded up to the allocator's alignment.
pub open spec fn metadata_value(init: GlobalInit) -> Option<u32> {
    match init {
        GlobalInit::ConstI32(v) => if (v as u32) >= 32 {
            Some(align16((v as u32) - 32) as u32)
        } else {
            None
        },
        GlobalInit::Other => None,
    }
}

/// The dynamic base (from the global with the largest index) and the
/// dynamic-top pointer (from the one with the second-largest index).
pub open spec fn metadata_of(g: Seq<GlobalDesc>) -> Option<(u32, u32)> {
    if exists|i: int, j: int| is_max_at(g, i) && is_second_at(g, i, j) {
        let (i, j) = choose|i: int, j: int| is_max_at(g, i) && is_second_at(g, i, j);
        match (metadata_value(g[i].init), metadata_value(g[j].init)) {
            (Some(base), Some(top)) => Some((base, top)),
            _ => None,
        }
    } else {
        None
    }
}

proof fn lemma_max_second_unique(g: Seq<GlobalDesc>, i: int, j: int, i2: int, j2: int)
    requires
        is_max_at(g, i) && is_second_at(g, i, j),
        is_max_at(g, i2) && is_second_at(g, i2, j2),
    ensures
        i == i2 && j == j2,
{
    assert(g[i].index <= g[i2].index && g[i2].index <= g[i].index);
    if i < i2 {
        assert(g[i].index != g[i2].index);
    } else if i2 < i {
        assert(g[i2].index != g[i].index);
    }
    assert(g[j].index <= g[j2].index && g[j2].index <= g[j].index);
    if j < j2 {
        assert(g[j].index != g[j2].index);
    } else if j2 < j {
        assert(g[j2].index != g[j].index);
    }
}

/// What a global's initializer yields as a metadata value.
fn metadata_value_of(init: GlobalInit) -> (r: Option<u32>)
    ensures
        r == metadata_value(init),
{
    match init {
        GlobalInit::ConstI32(v) => {
            let raw = v as u32;
            if raw >= 32 {
                Some(align_memory(raw - 32))
            } else {
                None
            }
        },
        GlobalInit::Other => None,
    }
}

/// Reads the metadata that the toolchain emits as the module's last two
/// globals: the dynamic base from the global with the largest index, the
/// dynamic-top pointer from the one with the second-largest. Each must be a
/// constant 32-bit integer of at least 32; the result is that value less 32,
/// rounded up to 16. `None` when the module has fewer than two distinct
/// global indices or either global does not qualify.
pub fn get_emscripten_metadata(module: &ModuleDescriptor) -> (r: Option<(u32, u32)>)
    ensures
        r == metadata_of(module.globals@),
{
    let g = &module.globals;
    let n = g.len();
    if n == 0 {
        return None;
    }
    let mut bi: usize = 0;
    let mut k: usize = 1;
    while k < n
        invariant
            n == g@.len(),
            1 <= k <= n,
            bi < k,
            forall|m: int| 0 <= m < k ==> #[trigger] g@[m].index <= g@[bi as int].index,
            forall|m: int| 0 <= m < bi ==> #[trigger] g@[m].index != g@[bi as int].index,
        decreases n - k,
    {
        if g[k].index > g[bi].index {
            bi = k;
        }
        k = k + 1;
    }
    let max_index = g[bi].index;
    assert(is_max_at(g@, bi as int));
    let mut second: Option<usize> = None;
    let mut k: usize = 0;
    while k < n
        invariant
            n == g@.len(),
            k <= n,
            max_index == g@[bi as int].index,
            is_max_at(g@, bi as int),
            match second {
                Some(j) => {
                    &&& j < k
                    &&& g@[j as int].index != max_index
                    &&& forall|m: int|
                        0 <= m < k && #[trigger] g@[m].index != max_index ==> g@[m].index
                            <= g@[j as int].index
                    &&& forall|m: int| 0 <= m < j ==> #[trigger] g@[m].index != g@[j as int].index
                },
                None => forall|m: int| 0 <= m < k ==> #[trigger] g@[m].index == max_index,
            },
        decreases n - k,
    {
        if g[k].index != max_index {
            match second {
                Some(j) => {
                    if g[k].index > g[j].index {
                        second = Some(k);
                    }
                },
                None => {
                    second = Some(k);
                },
            }
        }
        k = k + 1;
    }
    match second {
        None => {
            assert forall|i: int, j: int| !(is_max_at(g@, i) && is_second_at(g@, i, j)) by {
                if is_max_at(g@, i) && is_second_at(g@, i, j) {
                    assert(g@[i].index == max_index);
                    assert(g@[j].index == max_index);
                }
            }
            None
        },
        Some(bj) => {
            assert(is_second_at(g@, bi as int, bj as int));
            proof {
                let (i, j) = choose|i: int, j: int| is_max_at(g@, i) && is_second_at(g@, i, j);
                lemma_max_second_unique(g@, i, j, bi as int, bj as int);
            }
            let base = metadata_value_of(g[bi].init);
            let top = metadata_value_of(g[bj].init);
            match (base, top) {
                (Some(b), Some(t)) => Some((b, t)),
                _ => None,
            }
        },
    }
}

} // verus!
