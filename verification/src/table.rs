//! The hash tables of the library: voxel arrays by chunk coordinate, and
//! numeric ids by name.

use vstd::prelude::*;

verus! {

/// Chunk coordinate as a mathematical triple.
pub open spec fn pos_key(pos: [i32; 3]) -> (int, int, int) {
    (pos[0] as int, pos[1] as int, pos[2] as int)
}

/// Whether a triple of integers is the coordinate of a chunk.
pub open spec fn is_chunk_key(k: (int, int, int)) -> bool {
    &&& i32::MIN <= k.0 <= i32::MAX
    &&& i32::MIN <= k.1 <= i32::MAX
    &&& i32::MIN <= k.2 <= i32::MAX
}

/// Voxel arrays keyed by chunk coordinate, kept in a `bevy::utils::HashMap`.
#[verifier::external_body]
pub struct ChunkTable {
    inner: bevy::utils::HashMap<[i32; 3], Vec<usize>>,
}

/// What a `ChunkTable` holds: the array stored under each coordinate.
pub uninterp spec fn chunk_table_entries(t: ChunkTable) -> Map<(int, int, int), Seq<usize>>;

/// The contents of a table that holds no chunk.
pub open spec fn no_chunks() -> Map<(int, int, int), Seq<usize>> {
    Map::empty()
}

/// `HashMap::default`: a table that holds nothing.
#[verifier::external_body]
pub(crate) fn table_new() -> (t: ChunkTable)
    ensures
        chunk_table_entries(t) == no_chunks(),
{
    ChunkTable { inner: bevy::utils::HashMap::default() }
}

/// `HashMap::get`: the array stored under `pos`, if there is one.
#[verifier::external_body]
pub(crate) fn table_get<'a>(t: &'a ChunkTable, pos: &[i32; 3]) -> (r: Option<&'a Vec<usize>>)
    ensures
        r is Some <==> chunk_table_entries(*t).contains_key(pos_key(*pos)),
        r matches Some(v) ==> v@ == chunk_table_entries(*t)[pos_key(*pos)],
{
    t.inner.get(pos)
}

/// `HashMap::get_mut`: mutable access to the array stored under `pos`. The
/// table afterwards holds under `pos` whatever the caller leaves in the
/// array, and is otherwise unchanged.
#[verifier::external_body]
pub(crate) fn table_get_mut<'a>(t: &'a mut ChunkTable, pos: &[i32; 3]) -> (r: Option<
    &'a mut Vec<usize>,
>)
    ensures
        r is Some <==> chunk_table_entries(*old(t)).contains_key(pos_key(*pos)),
        r matches Some(v) ==> v@ == chunk_table_entries(*old(t))[pos_key(*pos)]
            && chunk_table_entries(*final(t)) == chunk_table_entries(*old(t)).insert(
            pos_key(*pos),
            final(v)@,
        ),
        r is None ==> chunk_table_entries(*final(t)) == chunk_table_entries(*old(t)),
{
    t.inner.get_mut(pos)
}

/// `HashMap::insert`: stores `voxels` under `pos` and hands back what was
/// stored there before.
#[verifier::external_body]
pub(crate) fn table_insert(t: &mut ChunkTable, pos: [i32; 3], voxels: Vec<usize>) -> (r: Option<
    Vec<usize>,
>)
    ensures
        chunk_table_entries(*final(t)) == chunk_table_entries(*old(t)).insert(
            pos_key(pos),
            voxels@,
        ),
        r is Some <==> chunk_table_entries(*old(t)).contains_key(pos_key(pos)),
        r matches Some(v) ==> v@ == chunk_table_entries(*old(t))[pos_key(pos)],
{
    t.inner.insert(pos, voxels)
}

/// `HashMap::remove`: takes out the array stored under `pos`, if there is one.
#[verifier::external_body]
pub(crate) fn table_remove(t: &mut ChunkTable, pos: &[i32; 3]) -> (r: Option<Vec<usize>>)
    ensures
        chunk_table_entries(*final(t)) == chunk_table_entries(*old(t)).remove(pos_key(*pos)),
        r is Some <==> chunk_table_entries(*old(t)).contains_key(pos_key(*pos)),
        r matches Some(v) ==> v@ == chunk_table_entries(*old(t))[pos_key(*pos)],
{
    t.inner.remove(pos)
}

/// Numeric ids keyed by name, kept in a `bevy::utils::HashMap`.
#[verifier::external_body]
pub struct NameTable {
    inner: bevy::utils::HashMap<String, usize>,
}

/// What a `NameTable` holds: the id stored under each name.
pub uninterp spec fn name_table_entries(t: NameTable) -> Map<Seq<char>, usize>;

/// The contents of a table that holds no name.
pub open spec fn no_names() -> Map<Seq<char>, usize> {
    Map::empty()
}

/// `HashMap::default`: a table that holds nothing.
#[verifier::external_body]
pub(crate) fn names_new() -> (t: NameTable)
    ensures
        name_table_entries(t) == no_names(),
{
    NameTable { inner: bevy::utils::HashMap::default() }
}

/// `HashMap::get`: the id stored under `name`, if there is one.
#[verifier::external_body]
pub(crate) fn names_get(t: &NameTable, name: &str) -> (r: Option<usize>)
    ensures
        r is Some <==> name_table_entries(*t).contains_key(name@),
        r matches Some(id) ==> id == name_table_entries(*t)[name@],
{
    t.inner.get(name).copied()
}

/// `HashMap::insert`: stores `id` under `name` and hands back the id that
/// was stored there before.
#[verifier::external_body]
pub(crate) fn names_insert(t: &mut NameTable, name: String, id: usize) -> (r: Option<usize>)
    ensures
        name_table_entries(*final(t)) == name_table_entries(*old(t)).insert(name@, id),
        r is Some <==> name_table_entries(*old(t)).contains_key(name@),
        r matches Some(before) ==> before == name_table_entries(*old(t))[name@],
{
    t.inner.insert(name, id)
}

} // verus!
