//! Partition lookup: resolving a partition kind or name to the single
//! matching entry of the on-flash partition table.
//!
//! The table lives at a fixed offset and holds consecutive 32-byte entries.
//! A scan walks the entries in order and stops at the first chunk that does
//! not carry the entry magic: a checksum entry or an erased chunk ends the
//! table cleanly, anything else is a malformed table.  A lookup must match
//! exactly one entry; zero matches and two matches are both errors.

use vstd::prelude::*;
use vstd::bytes::{spec_u32_from_le_bytes, u32_from_le_bytes};
use vstd::slice::slice_subrange;
use crate::error::{FlashOpError, OtaInternalError};
use crate::storage::FlashStorage;

verus! {

/// Flash offset of the partition table.
pub const TABLE_OFFSET: u32 = 0x8000;

/// Size in bytes of one partition-table entry.
pub const ENTRY_SIZE: usize = 32;

/// Maximum number of entries the table region can hold.
pub const TABLE_MAX_ENTRIES: usize = 128;

/// First byte of the magic of a partition entry.
pub const ENTRY_MAGIC_0: u8 = 0xAA;

/// Second byte of the magic of a partition entry.
pub const ENTRY_MAGIC_1: u8 = 0x50;

/// Either byte of the magic of a table checksum entry.
pub const MD5_MAGIC: u8 = 0xEB;

/// What a partition is used for, as its table entry declares it.
///
/// The updater interprets application slots and the ota data partition;
/// every other type/subtype pair is carried through opaquely.
#[derive(Clone, Copy, Debug, PartialEq, Eq, Structural)]
pub enum PartitionKind {
    /// Factory application image.
    AppFactory,
    /// Application slot with the given index.
    AppOta(u8),
    /// Test application image.
    AppTest,
    /// The ota metadata partition.
    DataOta,
    /// Any other type/subtype pair, kept raw.
    Other(u8, u8),
}

/// One partition-table entry, reduced to what the updater reads.
pub struct PartitionDescriptor {
    /// Flash offset of the partition.
    pub offset: u32,
    /// Size of the partition in bytes.
    pub size: u32,
    /// Declared use of the partition.
    pub kind: PartitionKind,
    /// Entry name, without trailing padding.
    pub name: Vec<u8>,
}

/// Mathematical model of a partition-table entry.
#[verifier::ext_equal]
pub struct DescriptorModel {
    pub offset: u32,
    pub size: u32,
    pub kind: PartitionKind,
    pub name: Seq<u8>,
}

impl View for PartitionDescriptor {
    type V = DescriptorModel;

    open spec fn view(&self) -> DescriptorModel {
        DescriptorModel { offset: self.offset, size: self.size, kind: self.kind, name: self.name@ }
    }
}

/// The kind a raw type byte and subtype byte declare.
pub open spec fn kind_of(t: u8, s: u8) -> PartitionKind {
    if t == 0x00 {
        if s == 0x00 {
            PartitionKind::AppFactory
        } else if 0x10 <= s && s <= 0x1F {
            PartitionKind::AppOta((s - 0x10) as u8)
        } else if s == 0x20 {
            PartitionKind::AppTest
        } else {
            PartitionKind::Other(t, s)
        }
    } else if t == 0x01 && s == 0x00 {
        PartitionKind::DataOta
    } else {
        PartitionKind::Other(t, s)
    }
}

fn kind_from_bytes(t: u8, s: u8) -> (k: PartitionKind)
    ensures
        k == kind_of(t, s),
{
    if t == 0x00 {
        if s == 0x00 {
            PartitionKind::AppFactory
        } else if 0x10 <= s && s <= 0x1F {
            PartitionKind::AppOta(s - 0x10)
        } else if s == 0x20 {
            PartitionKind::AppTest
        } else {
            PartitionKind::Other(t, s)
        }
    } else if t == 0x01 && s == 0x00 {
        PartitionKind::DataOta
    } else {
        PartitionKind::Other(t, s)
    }
}

/// The prefix of `raw` before its first NUL byte: the stored name.
pub open spec fn name_prefix(raw: Seq<u8>) -> Seq<u8>
    decreases raw.len(),
{
    if raw.len() == 0 {
        Seq::empty()
    } else if raw[0] == 0 {
        Seq::empty()
    } else {
        seq![raw[0]] + name_prefix(raw.skip(1))
    }
}

proof fn lemma_name_prefix_take(raw: Seq<u8>, k: int)
    requires
        0 <= k <= raw.len(),
        forall|j: int| #![auto] 0 <= j < k ==> raw[j] != 0,
        k == raw.len() || raw[k] == 0,
    ensures
        name_prefix(raw) == raw.take(k),
    decreases k,
{
    if k == 0 {
        assert(name_prefix(raw) =~= raw.take(0));
    } else {
        assert(raw[0] != 0);
        lemma_name_prefix_take(raw.skip(1), k - 1);
        assert(name_prefix(raw) =~= seq![raw[0]] + raw.skip(1).take(k - 1));
        assert(seq![raw[0]] + raw.skip(1).take(k - 1) =~= raw.take(k));
    }
}

/// Whether `esp_partition_table` accepts the 32-byte chunk as a well-formed
/// partition entry (valid magic, type, subtype and name).  A function of the
/// bytes alone.
pub uninterp spec fn entry_valid(raw: Seq<u8>) -> bool;

/// Relies on `esp_partition_table::PartitionEntry::from_bytes`: it accepts
/// or rejects a 32-byte entry depending on those bytes alone.
#[verifier::external_body]
fn entry_parses(raw: &[u8]) -> (r: bool)
    requires
        raw@.len() == ENTRY_SIZE,
    ensures
        r == entry_valid(raw@),
{
    let buffer: &[u8; 32] = raw.try_into().unwrap();
    esp_partition_table::PartitionEntry::from_bytes(buffer).is_ok()
}

/// The descriptor a well-formed 32-byte entry carries: type and subtype
/// bytes, little-endian offset and size, and the name before its padding.
pub open spec fn entry_model(c: Seq<u8>) -> DescriptorModel {
    DescriptorModel {
        offset: spec_u32_from_le_bytes(c.subrange(4, 8)),
        size: spec_u32_from_le_bytes(c.subrange(8, 12)),
        kind: kind_of(c[2], c[3]),
        name: name_prefix(c.subrange(12, 28)),
    }
}

/// Read the descriptor out of a 32-byte entry.
fn descriptor_from_chunk(chunk: &Vec<u8>) -> (d: PartitionDescriptor)
    requires
        chunk@.len() == ENTRY_SIZE,
    ensures
        d@ == entry_model(chunk@),
{
    let offset = u32_from_le_bytes(slice_subrange(chunk.as_slice(), 4, 8));
    let size = u32_from_le_bytes(slice_subrange(chunk.as_slice(), 8, 12));
    let kind = kind_from_bytes(chunk[2], chunk[3]);
    let mut name: Vec<u8> = Vec::new();
    let mut i: usize = 12;
    while i < 28 && chunk[i] != 0
        invariant
            chunk@.len() == ENTRY_SIZE,
            12 <= i <= 28,
            forall|j: int| #![auto] 12 <= j < i ==> chunk@[j] != 0,
            name@ == chunk@.subrange(12, i as int),
        decreases 28 - i,
    {
        name.push(chunk[i]);
        proof {
            assert(chunk@.subrange(12, i + 1) =~= chunk@.subrange(12, i as int).push(
                chunk@[i as int],
            ));
        }
        i += 1;
    }
    proof {
        let raw = chunk@.subrange(12, 28);
        lemma_name_prefix_take(raw, i - 12);
        assert(raw.take(i - 12) =~= chunk@.subrange(12, i as int));
        assert(DescriptorModel { offset, size, kind, name: name@ } =~= entry_model(chunk@));
    }
    PartitionDescriptor { offset, size, kind, name }
}

/// What a table lookup resolves to.
#[verifier::ext_equal]
pub enum LocateOutcome {
    /// Exactly one entry matched so far.
    Found(DescriptorModel),
    /// The table ended with no match.
    NotFound,
    /// Two entries matched.
    FoundTwice,
    /// A chunk was neither a valid entry nor a clean terminator.
    BadEntry,
}

/// The byte stored at address `a`; addresses past the device's end read as
/// erased, so a short device ends the table like an erased chunk does.
pub open spec fn byte_at(v: Seq<u8>, a: int) -> u8 {
    if 0 <= a < v.len() {
        v[a]
    } else {
        crate::storage::ERASED_BYTE
    }
}

/// The 32-byte table chunk with index `i`.
pub open spec fn table_chunk(v: Seq<u8>, i: int) -> Seq<u8> {
    Seq::new(32, |j: int| byte_at(v, TABLE_OFFSET + 32 * i + j))
}

/// Whether the chunk carries the partition-entry magic.
pub open spec fn chunk_is_entry(c: Seq<u8>) -> bool {
    c[0] == ENTRY_MAGIC_0 && c[1] == ENTRY_MAGIC_1
}

/// Whether the chunk ends the table cleanly: a checksum entry or an
/// erased chunk.
pub open spec fn chunk_is_terminator(c: Seq<u8>) -> bool {
    (c[0] == MD5_MAGIC && c[1] == MD5_MAGIC) || (c[0] == 0xFF && c[1] == 0xFF)
}

/// Outcome of a finished scan that saw `found` as its only match.
pub open spec fn scan_done(found: Option<DescriptorModel>) -> LocateOutcome {
    match found {
        Some(e) => LocateOutcome::Found(e),
        None => LocateOutcome::NotFound,
    }
}

/// One lookup scan over the table in `v`, from entry `i` on, with `found`
/// the match seen so far; `sel` decides which entries match.
pub open spec fn locate_from(
    v: Seq<u8>,
    i: int,
    found: Option<DescriptorModel>,
    sel: spec_fn(DescriptorModel) -> bool,
) -> LocateOutcome
    decreases TABLE_MAX_ENTRIES - i,
{
    if i < 0 || i >= TABLE_MAX_ENTRIES {
        scan_done(found)
    } else {
        let c = table_chunk(v, i);
        if chunk_is_entry(c) {
            if entry_valid(c) {
                let e = entry_model(c);
                if sel(e) {
                    match found {
                        Some(_) => LocateOutcome::FoundTwice,
                        None => locate_from(v, i + 1, Some(e), sel),
                    }
                } else {
                    locate_from(v, i + 1, found, sel)
                }
            } else {
                LocateOutcome::BadEntry
            }
        } else if chunk_is_terminator(c) {
            scan_done(found)
        } else {
            LocateOutcome::BadEntry
        }
    }
}

/// The selector that matches entries of the given kind.
pub open spec fn kind_sel(kind: PartitionKind) -> spec_fn(DescriptorModel) -> bool {
    |d: DescriptorModel| d.kind == kind
}

/// The selector that matches entries with the given name.
pub open spec fn name_sel(name: Seq<u8>) -> spec_fn(DescriptorModel) -> bool {
    |d: DescriptorModel| d.name == name
}

/// Where a lookup by kind resolves in the flash contents `v`.
pub open spec fn locate_by_kind(v: Seq<u8>, kind: PartitionKind) -> LocateOutcome {
    locate_from(v, 0, None, kind_sel(kind))
}

/// Where a lookup by name resolves in the flash contents `v`.
pub open spec fn locate_by_name(v: Seq<u8>, name: Seq<u8>) -> LocateOutcome {
    locate_from(v, 0, None, name_sel(name))
}

/// How a lookup's outcome shows up in its return value.  A storage failure
/// may preempt the scan at any point; every other return is pinned to the
/// outcome the flash contents determine.
pub open spec fn lookup_returns<E>(
    out: LocateOutcome,
    r: Result<PartitionDescriptor, OtaInternalError<E>>,
) -> bool {
    match r {
        Ok(d) => out == LocateOutcome::Found(d@),
        Err(OtaInternalError::PartitionNotFound) => out == LocateOutcome::NotFound,
        Err(OtaInternalError::PartitionFoundTwice) => out == LocateOutcome::FoundTwice,
        Err(OtaInternalError::NorFlashOpError(FlashOpError::PartitionError)) => out
            == LocateOutcome::BadEntry,
        Err(OtaInternalError::NorFlashOpError(FlashOpError::StorageError(_))) => true,
        Err(OtaInternalError::OtaDataCorrupt) => false,
    }
}

/// Option of a descriptor, viewed as its model.
pub open spec fn found_model(found: Option<PartitionDescriptor>) -> Option<DescriptorModel> {
    match found {
        Some(d) => Some(d@),
        None => None,
    }
}

/// Find the partition entry with the given kind.
pub fn find_partition_by_type<E, S: FlashStorage<E>>(storage: &mut S, kind: PartitionKind) -> (r:
    Result<PartitionDescriptor, OtaInternalError<E>>)
    ensures
        final(storage).view() == old(storage).view(),
        lookup_returns(locate_by_kind(old(storage).view(), kind), r),
{
    let ghost v = storage.view();
    let ghost sel = kind_sel(kind);
    let mut found: Option<PartitionDescriptor> = None;
    let mut i: usize = 0;
    while i < TABLE_MAX_ENTRIES
        invariant
            v == old(storage).view(),
            sel == kind_sel(kind),
            storage.view() == v,
            i <= TABLE_MAX_ENTRIES,
            locate_from(v, 0, None, sel) == locate_from(v, i as int, found_model(found), sel),
            found matches Some(d) ==> sel(d@),
        decreases TABLE_MAX_ENTRIES - i,
    {
        let chunk = match storage.read(TABLE_OFFSET as u64 + 32 * (i as u64), ENTRY_SIZE) {
            Ok(c) => c,
            Err(e) => return Err(
                OtaInternalError::NorFlashOpError(FlashOpError::StorageError(e)),
            ),
        };
        proof {
            assert(chunk@ =~= table_chunk(v, i as int));
        }
        let ghost pre = found_model(found);
        if chunk[0] == ENTRY_MAGIC_0 && chunk[1] == ENTRY_MAGIC_1 {
            if entry_parses(chunk.as_slice()) {
                let d = descriptor_from_chunk(&chunk);
                if d.kind == kind {
                    proof {
                        assert(sel(entry_model(chunk@)));
                    }
                    if found.is_some() {
                        proof {
                            assert(locate_from(v, i as int, pre, sel)
                                == LocateOutcome::FoundTwice);
                        }
                        return Err(OtaInternalError::PartitionFoundTwice);
                    }
                    found = Some(d);
                    proof {
                        assert(locate_from(v, i as int, pre, sel) == locate_from(
                            v,
                            i + 1,
                            found_model(found),
                            sel,
                        ));
                    }
                } else {
                    proof {
                        assert(entry_model(chunk@) == d@);
                        assert(!sel(entry_model(chunk@)));
                        assert(locate_from(v, i as int, pre, sel) == locate_from(
                            v,
                            i + 1,
                            pre,
                            sel,
                        ));
                    }
                }
            } else {
                proof {
                    assert(locate_from(v, i as int, pre, sel) == LocateOutcome::BadEntry);
                }
                return Err(OtaInternalError::NorFlashOpError(FlashOpError::PartitionError));
            }
        } else if (chunk[0] == MD5_MAGIC && chunk[1] == MD5_MAGIC) || (chunk[0] == 0xFF && chunk[1]
            == 0xFF) {
            proof {
                assert(locate_from(v, i as int, pre, sel) == scan_done(pre));
            }
            return match found {
                Some(d) => Ok(d),
                None => Err(OtaInternalError::PartitionNotFound),
            };
        } else {
            proof {
                assert(!chunk_is_entry(table_chunk(v, i as int)));
                assert(!chunk_is_terminator(table_chunk(v, i as int)));
                assert(locate_from(v, i as int, pre, sel) == LocateOutcome::BadEntry);
            }
            return Err(OtaInternalError::NorFlashOpError(FlashOpError::PartitionError));
        }
        i += 1;
    }
    proof {
        assert(locate_from(v, TABLE_MAX_ENTRIES as int, found_model(found), sel) == scan_done(
            found_model(found),
        ));
    }
    match found {
        Some(d) => Ok(d),
        None => Err(OtaInternalError::PartitionNotFound),
    }
}

/// Find the partition entry with the given name.
pub fn find_partition_by_name<E, S: FlashStorage<E>>(storage: &mut S, name: &[u8]) -> (r: Result<
    PartitionDescriptor,
    OtaInternalError<E>,
>)
    ensures
        final(storage).view() == old(storage).view(),
        lookup_returns(locate_by_name(old(storage).view(), name@), r),
{
    let ghost v = storage.view();
    let ghost sel = name_sel(name@);
    let mut found: Option<PartitionDescriptor> = None;
    let mut i: usize = 0;
    while i < TABLE_MAX_ENTRIES
        invariant
            v == old(storage).view(),
            sel == name_sel(name@),
            storage.view() == v,
            i <= TABLE_MAX_ENTRIES,
            locate_from(v, 0, None, sel) == locate_from(v, i as int, found_model(found), sel),
            found matches Some(d) ==> sel(d@),
        decreases TABLE_MAX_ENTRIES - i,
    {
        let chunk = match storage.read(TABLE_OFFSET as u64 + 32 * (i as u64), ENTRY_SIZE) {
            Ok(c) => c,
            Err(e) => return Err(
                OtaInternalError::NorFlashOpError(FlashOpError::StorageError(e)),
            ),
        };
        proof {
            assert(chunk@ =~= table_chunk(v, i as int));
        }
        let ghost pre = found_model(found);
        if chunk[0] == ENTRY_MAGIC_0 && chunk[1] == ENTRY_MAGIC_1 {
            if entry_parses(chunk.as_slice()) {
                let d = descriptor_from_chunk(&chunk);
                if slices_equal(d.name.as_slice(), name) {
                    proof {
                        assert(d@.name == name@);
                        assert(entry_model(chunk@).name == name@);
                        assert(sel(entry_model(chunk@)));
                    }
                    if found.is_some() {
                        proof {
                            assert(locate_from(v, i as int, pre, sel)
                                == LocateOutcome::FoundTwice);
                        }
                        return Err(OtaInternalError::PartitionFoundTwice);
                    }
                    found = Some(d);
                    proof {
                        assert(locate_from(v, i as int, pre, sel) == locate_from(
                            v,
                            i + 1,
                            found_model(found),
                            sel,
                        ));
                    }
                } else {
                    proof {
                        assert(entry_model(chunk@) == d@);
                        assert(!sel(entry_model(chunk@)));
                        assert(locate_from(v, i as int, pre, sel) == locate_from(
                            v,
                            i + 1,
                            pre,
                            sel,
                        ));
                    }
                }
            } else {
                proof {
                    assert(locate_from(v, i as int, pre, sel) == LocateOutcome::BadEntry);
                }
                return Err(OtaInternalError::NorFlashOpError(FlashOpError::PartitionError));
            }
        } else if (chunk[0] == MD5_MAGIC && chunk[1] == MD5_MAGIC) || (chunk[0] == 0xFF && chunk[1]
            == 0xFF) {
            proof {
                assert(locate_from(v, i as int, pre, sel) == scan_done(pre));
            }
            return match found {
                Some(d) => Ok(d),
                None => Err(OtaInternalError::PartitionNotFound),
            };
        } else {
            proof {
                assert(!chunk_is_entry(table_chunk(v, i as int)));
                assert(!chunk_is_terminator(table_chunk(v, i as int)));
                assert(locate_from(v, i as int, pre, sel) == LocateOutcome::BadEntry);
            }
            return Err(OtaInternalError::NorFlashOpError(FlashOpError::PartitionError));
        }
        i += 1;
    }
    proof {
        assert(locate_from(v, TABLE_MAX_ENTRIES as int, found_model(found), sel) == scan_done(
            found_model(found),
        ));
    }
    match found {
        Some(d) => Ok(d),
        None => Err(OtaInternalError::PartitionNotFound),
    }
}

/// The table's entries in order, when every chunk up to a clean terminator
/// is a well-formed entry; `None` when a malformed chunk stops the scan.
pub open spec fn entries_from(v: Seq<u8>, i: int) -> Option<Seq<DescriptorModel>>
    decreases TABLE_MAX_ENTRIES - i,
{
    if i < 0 || i >= TABLE_MAX_ENTRIES {
        Some(Seq::empty())
    } else {
        let c = table_chunk(v, i);
        if chunk_is_entry(c) {
            if entry_valid(c) {
                match entries_from(v, i + 1) {
                    Some(rest) => Some(seq![entry_model(c)] + rest),
                    None => None,
                }
            } else {
                None
            }
        } else if chunk_is_terminator(c) {
            Some(Seq::empty())
        } else {
            None
        }
    }
}

/// All entries of the partition table in `v`, if the table is well formed.
pub open spec fn table_entries(v: Seq<u8>) -> Option<Seq<DescriptorModel>> {
    entries_from(v, 0)
}

/// How many entries of `es` the selector matches.
pub open spec fn match_count(
    es: Seq<DescriptorModel>,
    sel: spec_fn(DescriptorModel) -> bool,
) -> nat
    decreases es.len(),
{
    if es.len() == 0 {
        0
    } else {
        (if sel(es[0]) {
            1nat
        } else {
            0nat
        }) + match_count(es.skip(1), sel)
    }
}

/// The first entry of `es` the selector matches.
pub open spec fn first_match(
    es: Seq<DescriptorModel>,
    sel: spec_fn(DescriptorModel) -> bool,
) -> DescriptorModel
    decreases es.len(),
{
    if es.len() == 0 {
        arbitrary()
    } else if sel(es[0]) {
        es[0]
    } else {
        first_match(es.skip(1), sel)
    }
}

proof fn lemma_locate_from_counts(
    v: Seq<u8>,
    i: int,
    found: Option<DescriptorModel>,
    sel: spec_fn(DescriptorModel) -> bool,
    es: Seq<DescriptorModel>,
)
    requires
        entries_from(v, i) == Some(es),
    ensures
        found is None && match_count(es, sel) == 0 ==> locate_from(v, i, found, sel)
            == LocateOutcome::NotFound,
        found is None && match_count(es, sel) == 1 ==> locate_from(v, i, found, sel)
            == LocateOutcome::Found(first_match(es, sel)),
        found is None && match_count(es, sel) >= 2 ==> locate_from(v, i, found, sel)
            == LocateOutcome::FoundTwice,
        found is Some && match_count(es, sel) == 0 ==> locate_from(v, i, found, sel)
            == LocateOutcome::Found(found->Some_0),
        found is Some && match_count(es, sel) >= 1 ==> locate_from(v, i, found, sel)
            == LocateOutcome::FoundTwice,
    decreases TABLE_MAX_ENTRIES - i,
{
    if i < 0 || i >= TABLE_MAX_ENTRIES {
        assert(es =~= Seq::<DescriptorModel>::empty());
    } else {
        let c = table_chunk(v, i);
        if chunk_is_entry(c) {
            assert(entry_valid(c));
            assert(entries_from(v, i + 1) is Some);
            let rest = entries_from(v, i + 1)->Some_0;
            assert(es == seq![entry_model(c)] + rest);
            assert(es[0] == entry_model(c));
            assert(es.skip(1) =~= rest);
            let e = entry_model(c);
            if sel(e) {
                if found is None {
                    lemma_locate_from_counts(v, i + 1, Some(e), sel, rest);
                }
            } else {
                lemma_locate_from_counts(v, i + 1, found, sel, rest);
            }
        } else {
            assert(chunk_is_terminator(c));
            assert(es =~= Seq::<DescriptorModel>::empty());
        }
    }
}

/// Law: over a well-formed partition table, a lookup resolves to the single
/// matching entry; zero matching entries end in `NotFound`, two or more in
/// `FoundTwice`, whatever the selector.
pub proof fn lemma_lookup_uniqueness(
    v: Seq<u8>,
    sel: spec_fn(DescriptorModel) -> bool,
    es: Seq<DescriptorModel>,
)
    requires
        table_entries(v) == Some(es),
    ensures
        match_count(es, sel) == 0 ==> locate_from(v, 0, None, sel) == LocateOutcome::NotFound,
        match_count(es, sel) == 1 ==> locate_from(v, 0, None, sel) == LocateOutcome::Found(
            first_match(es, sel),
        ),
        match_count(es, sel) >= 2 ==> locate_from(v, 0, None, sel) == LocateOutcome::FoundTwice,
{
    lemma_locate_from_counts(v, 0, None, sel, es);
}

/// Whether the byte range `off .. off + len` stays clear of the partition
/// table region, so that writing it cannot change what any lookup resolves.
pub open spec fn clear_of_table(off: int, len: int) -> bool {
    off + len <= TABLE_OFFSET || TABLE_OFFSET + 32 * TABLE_MAX_ENTRIES <= off
}

/// Law: two flash states that agree byte-for-byte on the table region
/// resolve every lookup alike, whatever the selector.
pub proof fn lemma_locate_stable(
    v1: Seq<u8>,
    v2: Seq<u8>,
    i: int,
    found: Option<DescriptorModel>,
    sel: spec_fn(DescriptorModel) -> bool,
)
    requires
        forall|a: int|
            #![auto]
            TABLE_OFFSET <= a < TABLE_OFFSET + 32 * TABLE_MAX_ENTRIES ==> byte_at(v1, a) == byte_at(
                v2,
                a,
            ),
    ensures
        locate_from(v1, i, found, sel) == locate_from(v2, i, found, sel),
    decreases TABLE_MAX_ENTRIES - i,
{
    if 0 <= i < TABLE_MAX_ENTRIES {
        assert(table_chunk(v1, i) =~= table_chunk(v2, i));
        let c = table_chunk(v1, i);
        if chunk_is_entry(c) && entry_valid(c) {
            let e = entry_model(c);
            if sel(e) {
                if found is None {
                    lemma_locate_stable(v1, v2, i + 1, Some(e), sel);
                }
            } else {
                lemma_locate_stable(v1, v2, i + 1, found, sel);
            }
        }
    }
}

/// Byte-wise equality of two slices.
fn slices_equal(a: &[u8], b: &[u8]) -> (r: bool)
    ensures
        r == (a@ == b@),
{
    if a.len() != b.len() {
        proof {
            assert(a@.len() != b@.len());
        }
        return false;
    }
    let mut i: usize = 0;
    while i < a.len()
        invariant
            a@.len() == b@.len(),
            i <= a@.len(),
            forall|j: int| #![auto] 0 <= j < i ==> a@[j] == b@[j],
        decreases a@.len() - i,
    {
        if a[i] != b[i] {
            return false;
        }
        i += 1;
    }
    proof {
        assert(a@ =~= b@);
    }
    true
}

} // verus!
