//! The Sv39 page-table engine: entry bit accessors, subtable reference
//! counting in the reserved bits of the first entries, mapping install
//! and lookup, and flat (identity) mapping.
//!
//! A table is one page of 512 entries. The hardware reaches subtables
//! through the physical addresses stored in pointer entries; here a table
//! owns its subtables alongside the entries, which models the same tree
//! without raw memory. Addresses are 64-bit values throughout, as they
//! are on the target machine.

use vstd::prelude::*;

verus! {

/// (Maximum) number of mappings in a table.
pub const NUM_ENTRIES: usize = 512;

/// Index to the entry storing the table's level in its reserved bits.
pub const LEVEL_INDEX: usize = 0;

/// Index to the entry storing reference-count bits 0 and 1.
pub const REFERENCE_COUNT_INDEX_0: usize = 1;

/// Index to the entry storing reference-count bits 2 and 3.
pub const REFERENCE_COUNT_INDEX_1: usize = 2;

/// Index to the entry storing reference-count bits 4 and 5.
pub const REFERENCE_COUNT_INDEX_2: usize = 3;

/// Index to the entry storing reference-count bits 6 and 7.
pub const REFERENCE_COUNT_INDEX_3: usize = 4;

/// Index to the entry whose reserved bits flag a held mutable reference.
pub const MUT_REFERENCE_COUNT_INDEX: usize = 5;

/// Index to the entry whose reserved bits serve as the reference lock.
pub const REFERENCE_LOCK_INDEX: usize = 6;

/// Index to the entry whose reserved bits flag a live parent reference.
pub const PARENT_REFERENCE_INDEX: usize = 7;

/// The access rights a mapping grants. The low three bits of the encoded
/// form match the R/W/X bit layout of a table entry.
#[derive(Clone, Copy, Debug, PartialEq, Eq, Structural)]
pub enum PagePermissions {
    ReadOnly,
    ReadWrite,
    ExecuteOnly,
    ReadExecute,
    ReadWriteExecute,
}

impl PagePermissions {
    /// Returns `true` if these permissions allow reading.
    pub fn read_allowed(self) -> (r: bool)
        ensures
            r == self.spec_read_allowed(),
    {
        match self {
            PagePermissions::ReadOnly => true,
            PagePermissions::ReadWrite => true,
            PagePermissions::ExecuteOnly => false,
            PagePermissions::ReadExecute => true,
            PagePermissions::ReadWriteExecute => true,
        }
    }

    /// Returns `true` if these permissions allow writing.
    pub fn write_allowed(self) -> (r: bool)
        ensures
            r == self.spec_write_allowed(),
    {
        match self {
            PagePermissions::ReadWrite => true,
            PagePermissions::ReadWriteExecute => true,
            _ => false,
        }
    }

    /// Returns `true` if these permissions allow execution.
    pub fn execute_allowed(self) -> (r: bool)
        ensures
            r == self.spec_execute_allowed(),
    {
        match self {
            PagePermissions::ExecuteOnly => true,
            PagePermissions::ReadExecute => true,
            PagePermissions::ReadWriteExecute => true,
            _ => false,
        }
    }

    /// Whether reading is allowed (bit 0 of the encoding).
    pub open spec fn spec_read_allowed(self) -> bool {
        self != PagePermissions::ExecuteOnly
    }

    /// Whether writing is allowed (bit 1 of the encoding).
    pub open spec fn spec_write_allowed(self) -> bool {
        self == PagePermissions::ReadWrite || self == PagePermissions::ReadWriteExecute
    }

    /// Whether execution is allowed (bit 2 of the encoding).
    pub open spec fn spec_execute_allowed(self) -> bool {
        self == PagePermissions::ExecuteOnly || self == PagePermissions::ReadExecute || self
            == PagePermissions::ReadWriteExecute
    }
}

/// An entry in an Sv39 page table: one 64-bit word, modelled by its
/// fields. [`Sv39PageTableEntry::to_bits`] gives the machine encoding.
#[derive(Clone, Copy, Debug, PartialEq, Eq, Structural)]
pub struct Sv39PageTableEntry {
    /// V (bit 0): the entry is in use.
    pub valid: bool,
    /// R (bit 1): reads through this mapping are allowed.
    pub readable: bool,
    /// W (bit 2): writes through this mapping are allowed.
    pub writable: bool,
    /// X (bit 3): instruction fetches through this mapping are allowed.
    pub executable: bool,
    /// U (bit 4): user-mode access is allowed.
    pub user_mode_accessible: bool,
    /// G (bit 5): the mapping is global.
    pub global: bool,
    /// A (bit 6): the page may have been accessed.
    pub accessed: bool,
    /// D (bit 7): the page may have been written.
    pub dirty: bool,
    /// RSW (bits 8..10): reserved for supervisor use; the kernel packs
    /// table metadata into the RSW bits of the first eight entries.
    pub reserved: u8,
    /// PPN (bits 10..54): the physical page number.
    pub ppn: u64,
    /// N (bit 63): NAPOT.
    pub napot: bool,
}

impl Sv39PageTableEntry {
    /// Well-formed: the reserved field fits its two bits and the physical
    /// page number its 44.
    pub open spec fn wf(self) -> bool {
        self.reserved <= 0b11 && self.ppn < 0x1000_0000_0000
    }

    /// The machine encoding of this entry: the flag bits in the low
    /// byte, the reserved bits at 8, the physical page number at 10, and
    /// NAPOT at 63.
    pub open spec fn spec_bits(self) -> int {
        ((if self.valid {
            1int
        } else {
            0int
        }) + (if self.readable {
            2int
        } else {
            0int
        }) + (if self.writable {
            4int
        } else {
            0int
        }) + (if self.executable {
            8int
        } else {
            0int
        })) + ((if self.user_mode_accessible {
            16int
        } else {
            0int
        }) + (if self.global {
            32int
        } else {
            0int
        }) + (if self.accessed {
            64int
        } else {
            0int
        }) + (if self.dirty {
            128int
        } else {
            0int
        })) + self.reserved * 256 + self.ppn * 1024 + (if self.napot {
            0x8000_0000_0000_0000int
        } else {
            0int
        })
    }

    /// The machine encoding of this entry, as the hardware reads it.
    #[verifier::rlimit(30)]
    pub fn to_bits(self) -> (r: u64)
        requires
            self.wf(),
        ensures
            r == self.spec_bits(),
    {
        let flags: u64 = (if self.valid {
            1u64
        } else {
            0u64
        }) + (if self.readable {
            2u64
        } else {
            0u64
        }) + (if self.writable {
            4u64
        } else {
            0u64
        }) + (if self.executable {
            8u64
        } else {
            0u64
        });
        let modes: u64 = (if self.user_mode_accessible {
            16u64
        } else {
            0u64
        }) + (if self.global {
            32u64
        } else {
            0u64
        }) + (if self.accessed {
            64u64
        } else {
            0u64
        }) + (if self.dirty {
            128u64
        } else {
            0u64
        });
        let meta: u64 = (self.reserved as u64) * 256;
        let page: u64 = self.ppn * 1024;
        let top: u64 = if self.napot {
            0x8000_0000_0000_0000u64
        } else {
            0u64
        };
        flags + modes + meta + page + top
    }

    /// Creates a new entry that starts fully zeroed. Notably, this new
    /// entry is invalid.
    pub fn new() -> (r: Self)
        ensures
            r == Sv39PageTableEntry::spec_zero(),
    {
        Self {
            valid: false,
            readable: false,
            writable: false,
            executable: false,
            user_mode_accessible: false,
            global: false,
            accessed: false,
            dirty: false,
            reserved: 0,
            ppn: 0,
            napot: false,
        }
    }

    /// The fully zeroed entry.
    pub open spec fn spec_zero() -> Self {
        Sv39PageTableEntry {
            valid: false,
            readable: false,
            writable: false,
            executable: false,
            user_mode_accessible: false,
            global: false,
            accessed: false,
            dirty: false,
            reserved: 0,
            ppn: 0,
            napot: false,
        }
    }

    /// Returns `true` if this entry is a pointer to another page table:
    /// none of read, write or execute is granted.
    pub open spec fn spec_is_pointer(self) -> bool {
        !(self.readable || self.writable || self.executable)
    }

    /// Returns `true` if this entry is a pointer to another page table.
    pub fn is_pointer(&self) -> (r: bool)
        ensures
            r == self.spec_is_pointer(),
    {
        !(self.readable || self.writable || self.executable)
    }

    /// Returns the bits reserved for supervisor use.
    pub fn get_reserved(&self) -> (r: u8)
        ensures
            r == self.reserved,
    {
        self.reserved
    }

    /// Sets the bits reserved for supervisor use. Despite accepting a
    /// `u8`, only two bits are available.
    pub fn set_reserved(&mut self, reserved: u8) -> (r: Result<(), ()>)
        ensures
            reserved > 0b11 ==> r == Err::<(), ()>(()) && *final(self) == *old(self),
            reserved <= 0b11 ==> r == Ok::<(), ()>(()) && *final(self) == (Sv39PageTableEntry {
                reserved,
                ..*old(self)
            }),
    {
        if reserved > 0b11 {
            return Err(());
        }
        self.reserved = reserved;
        Ok(())
    }

    /// Swaps the bits reserved for supervisor use, if they currently hold
    /// `current`; otherwise reports the actual value. Both arguments are
    /// truncated to the two available bits by the machine; callers pass
    /// two-bit values.
    pub fn atomic_swap_reserved(&mut self, current: u8, new: u8) -> (r: Result<u8, u8>)
        requires
            current <= 0b11,
            new <= 0b11,
        ensures
            old(self).reserved == current ==> r == Ok::<u8, u8>(new) && *final(self) == (
            Sv39PageTableEntry { reserved: new, ..*old(self) }),
            old(self).reserved != current ==> r == Err::<u8, u8>(old(self).reserved) && *final(self) == *old(self),
    {
        if self.reserved == current {
            self.reserved = new;
            Ok(new)
        } else {
            Err(self.reserved)
        }
    }

    /// Reads the physical page number for translation level `level`:
    /// level 0 is the low 9 bits of the PPN, level 1 the next 9, and
    /// level 2 the highest 26. Other levels have no page number.
    pub fn get_physical_page_number_for_level(&self, level: u8) -> (r: Option<u64>)
        ensures
            r == spec_ppn_for_level(*self, level as int),
    {
        match level {
            0 => Some(self.ppn & 0x1FF),
            1 => Some((self.ppn >> 9) & 0x1FF),
            2 => Some(self.ppn >> 18),
            _ => None,
        }
    }

    /// Sets the physical page number for translation level `level`,
    /// leaving the other levels' bits unchanged. Errors if the value does
    /// not fit the level's field, or the level has none.
    pub fn set_physical_page_number_for_level(&mut self, level: u8, ppn: u64) -> (r: Result<
        (),
        (),
    >)
        requires
            old(self).wf(),
        ensures
            final(self).wf(),
            match r {
                Ok(()) => {
                    &&& level <= 2
                    &&& ppn <= spec_ppn_level_mask(level as int)
                    &&& spec_ppn_for_level(*final(self), level as int) == Some(ppn)
                    &&& forall|l: int|
                        0 <= l <= 2 && l != level ==> spec_ppn_for_level(*final(self), l)
                            == spec_ppn_for_level(*old(self), l)
                    &&& *final(self) == (Sv39PageTableEntry {
                        ppn: final(self).ppn,
                        ..*old(self)
                    })
                },
                Err(()) => (level > 2 || ppn > spec_ppn_level_mask(level as int)) && *final(self)
                    == *old(self),
            },
    {
        if level > 2 {
            return Err(());
        }
        let mask: u64 = if level == 2 {
            0x3FF_FFFF
        } else {
            0x1FF
        };
        if ppn > mask {
            return Err(());
        }
        let updated: u64 = if level == 0 {
            (self.ppn & !0x1FFu64) | ppn
        } else if level == 1 {
            (self.ppn & !(0x1FFu64 << 9)) | (ppn << 9)
        } else {
            (self.ppn & 0x3FFFFu64) | (ppn << 18)
        };
        proof {
            lemma_ppn_field_update(old(self).ppn, ppn, level as int);
        }
        self.ppn = updated;
        Ok(())
    }

    /// Sets the whole physical page number. Errors if it does not fit the
    /// 44-bit field.
    pub fn set_physical_page_number(&mut self, ppn: u64) -> (r: Result<(), ()>)
        ensures
            ppn >= 0x1000_0000_0000 ==> r == Err::<(), ()>(()) && *final(self) == *old(self),
            ppn < 0x1000_0000_0000 ==> r == Ok::<(), ()>(()) && *final(self) == (
            Sv39PageTableEntry { ppn, ..*old(self) }),
    {
        if ppn >= 0x1000_0000_0000 {
            return Err(());
        }
        self.ppn = ppn;
        Ok(())
    }

    /// Sets the permission bits of this entry to match `permissions`.
    pub fn apply_permissions(&mut self, permissions: PagePermissions)
        ensures
            *final(self) == (Sv39PageTableEntry {
                readable: permissions.spec_read_allowed(),
                writable: permissions.spec_write_allowed(),
                executable: permissions.spec_execute_allowed(),
                ..*old(self)
            }),
    {
        self.readable = permissions.read_allowed();
        self.writable = permissions.write_allowed();
        self.executable = permissions.execute_allowed();
    }

    /// Returns `true` if this entry is valid (in use).
    pub fn is_valid(&self) -> (r: bool)
        ensures
            r == self.valid,
    {
        self.valid
    }

    /// Updates the valid bit of this entry.
    pub fn set_valid(&mut self, valid: bool)
        ensures
            *final(self) == (Sv39PageTableEntry { valid, ..*old(self) }),
    {
        self.valid = valid;
    }

    /// Returns `true` if reads through this mapping are allowed.
    pub fn is_readable(&self) -> (r: bool)
        ensures
            r == self.readable,
    {
        self.readable
    }

    /// Updates the readable bit of this entry.
    pub fn set_readable(&mut self, readable: bool)
        ensures
            *final(self) == (Sv39PageTableEntry { readable, ..*old(self) }),
    {
        self.readable = readable;
    }

    /// Returns `true` if writes through this mapping are allowed.
    pub fn is_writable(&self) -> (r: bool)
        ensures
            r == self.writable,
    {
        self.writable
    }

    /// Updates the writable bit of this entry.
    pub fn set_writable(&mut self, writable: bool)
        ensures
            *final(self) == (Sv39PageTableEntry { writable, ..*old(self) }),
    {
        self.writable = writable;
    }

    /// Returns `true` if instruction fetches through this mapping are
    /// allowed.
    pub fn is_executable(&self) -> (r: bool)
        ensures
            r == self.executable,
    {
        self.executable
    }

    /// Updates the executable bit of this entry.
    pub fn set_executable(&mut self, executable: bool)
        ensures
            *final(self) == (Sv39PageTableEntry { executable, ..*old(self) }),
    {
        self.executable = executable;
    }

    /// Returns `true` if this entry has possibly been accessed since the
    /// accessed bit has been cleared.
    pub fn accessed(&self) -> (r: bool)
        ensures
            r == self.accessed,
    {
        self.accessed
    }

    /// Sets the accessed bit in this entry.
    pub fn set_accessed(&mut self)
        ensures
            *final(self) == (Sv39PageTableEntry { accessed: true, ..*old(self) }),
    {
        self.accessed = true;
    }

    /// Clears the accessed bit in this entry.
    pub fn clear_accessed(&mut self)
        ensures
            *final(self) == (Sv39PageTableEntry { accessed: false, ..*old(self) }),
    {
        self.accessed = false;
    }

    /// Returns `true` if this entry has possibly been written to since
    /// the dirty bit has been cleared.
    pub fn dirty(&self) -> (r: bool)
        ensures
            r == self.dirty,
    {
        self.dirty
    }

    /// Sets the dirty bit in this entry.
    pub fn set_dirty(&mut self)
        ensures
            *final(self) == (Sv39PageTableEntry { dirty: true, ..*old(self) }),
    {
        self.dirty = true;
    }

    /// Clears the dirty bit in this entry.
    pub fn clear_dirty(&mut self)
        ensures
            *final(self) == (Sv39PageTableEntry { dirty: false, ..*old(self) }),
    {
        self.dirty = false;
    }

    /// Sets this entry to map directly to `physical_address` with the
    /// given permissions, valid and ready for translation. Only the low
    /// 44 bits of the address take part in the page number.
    pub fn set_to_direct_mapping(&mut self, physical_address: u64, permissions: PagePermissions)
        ensures
            *final(self) == (Sv39PageTableEntry {
                valid: true,
                readable: permissions.spec_read_allowed(),
                writable: permissions.spec_write_allowed(),
                executable: permissions.spec_execute_allowed(),
                ppn: ((physical_address & 0xFFF_FFFF_FFFF) >> 12) as u64,
                ..*old(self)
            }),
    {
        self.valid = false;
        self.ppn = (physical_address & 0xFFF_FFFF_FFFF) >> 12;
        self.apply_permissions(permissions);
        self.valid = true;
    }
}

/// The PPN field of an entry at a translation level: level 0 holds PPN
/// bits 0..9, level 1 bits 9..18, level 2 bits 18..44.
pub open spec fn spec_ppn_for_level(e: Sv39PageTableEntry, level: int) -> Option<u64> {
    if level == 0 {
        Some(e.ppn & 0x1FF)
    } else if level == 1 {
        Some((e.ppn >> 9) & 0x1FF)
    } else if level == 2 {
        Some(e.ppn >> 18)
    } else {
        None
    }
}

/// The largest value the PPN field of a level can hold.
pub open spec fn spec_ppn_level_mask(level: int) -> u64 {
    if level == 2 {
        0x3FF_FFFF
    } else {
        0x1FF
    }
}

/// Updating one level's PPN field leaves the others unchanged and stores
/// the new value, for a 44-bit page number.
proof fn lemma_ppn_field_update(ppn0: u64, v: u64, level: int)
    requires
        ppn0 < 0x1000_0000_0000,
        0 <= level <= 2,
        v <= spec_ppn_level_mask(level),
    ensures
        level == 0 ==> ({
            let updated = ppn0 & !0x1FFu64 | v;
            updated < 0x1000_0000_0000 && updated & 0x1FF == v && (updated >> 9) & 0x1FF == (ppn0
                >> 9) & 0x1FF && updated >> 18 == ppn0 >> 18
        }),
        level == 1 ==> ({
            let updated = (ppn0 & !(0x1FFu64 << 9)) | (v << 9);
            updated < 0x1000_0000_0000 && (updated >> 9) & 0x1FF == v && updated & 0x1FF == ppn0
                & 0x1FF && updated >> 18 == ppn0 >> 18
        }),
        level == 2 ==> ({
            let updated = (ppn0 & 0x3FFFFu64) | (v << 18);
            updated < 0x1000_0000_0000 && updated >> 18 == v && updated & 0x1FF == ppn0 & 0x1FF && (
            updated >> 9) & 0x1FF == (ppn0 >> 9) & 0x1FF
        }),
{
    if level == 0 {
        let updated = ppn0 & !0x1FFu64 | v;
        assert(updated < 0x1000_0000_0000 && updated & 0x1FF == v && (updated >> 9) & 0x1FF == (
        ppn0 >> 9) & 0x1FF && updated >> 18 == ppn0 >> 18) by (bit_vector)
            requires
                ppn0 < 0x1000_0000_0000,
                v <= 0x1FF,
                updated == ppn0 & !0x1FFu64 | v,
        ;
    } else if level == 1 {
        let updated = (ppn0 & !(0x1FFu64 << 9)) | (v << 9);
        assert(updated < 0x1000_0000_0000 && (updated >> 9) & 0x1FF == v && updated & 0x1FF == ppn0
            & 0x1FF && updated >> 18 == ppn0 >> 18) by (bit_vector)
            requires
                ppn0 < 0x1000_0000_0000,
                v <= 0x1FF,
                updated == (ppn0 & !(0x1FFu64 << 9)) | (v << 9),
        ;
    } else {
        let updated = (ppn0 & 0x3FFFFu64) | (v << 18);
        assert(updated < 0x1000_0000_0000 && updated >> 18 == v && updated & 0x1FF == ppn0 & 0x1FF
            && (updated >> 9) & 0x1FF == (ppn0 >> 9) & 0x1FF) by (bit_vector)
            requires
                ppn0 < 0x1000_0000_0000,
                v <= 0x3FF_FFFF,
                updated == (ppn0 & 0x3FFFFu64) | (v << 18),
        ;
    }
}

/// A table entry named by its index within its table. The kernel also
/// tags it with a counted reference to the table; in the owning model
/// the position locates the table, so the index suffices.
#[derive(Clone, Copy, Debug, PartialEq, Eq, Structural)]
pub struct TaggedSv39PageTableEntry {
    /// An index into the table leading to the entry in question.
    pub index: usize,
}

impl TaggedSv39PageTableEntry {
    /// Creates a new tagged entry. The index names one of the 512 entries.
    pub fn new(index: usize) -> (r: Option<Self>)
        requires
            index <= NUM_ENTRIES,
        ensures
            r == Some(TaggedSv39PageTableEntry { index }),
    {
        Some(Self { index })
    }
}

/// An error that occurs when translating a virtual address.
#[derive(Clone, Copy, Debug, PartialEq, Eq, Structural)]
pub enum VirtualAddressTranslationError {
    /// Virtual addresses are 64 bits wide, but only 39 bits are used. Due
    /// to this, the upper 25 bits must match the most significant bit of
    /// the 39 lower bits.
    UpperBitsMalformed,
    /// The virtual address leads to an entry whose valid bit is unset.
    InvalidEntry(Option<TaggedSv39PageTableEntry>),
    /// The virtual address leads to a pointer in a level zero table,
    /// which cannot possibly be valid.
    LevelZeroPointer(Option<TaggedSv39PageTableEntry>),
}

/// An error that occurs when setting an address translation.
#[derive(Clone, Copy, Debug, PartialEq, Eq, Structural)]
pub enum VirtualAddressSetMappingError {
    /// The table level the translation was set to live in is impossible.
    ImpossibleLevel(u8),
    /// The mapping this translation would occupy is currently a pointer
    /// to a subtable that is alive (valid).
    MappingIsActivePointer(Option<TaggedSv39PageTableEntry>),
    /// The mapping this translation would occupy is currently in use.
    AddressAlreadyInUse(Option<TaggedSv39PageTableEntry>),
}

/// A page table following the RISC-V Sv39 format: 512 entries, with the
/// subtables that its pointer entries lead to owned alongside them.
pub struct Sv39PageTable {
    /// The mappings in this page table.
    entries: Vec<Sv39PageTableEntry>,
    /// The subtables the pointer entries lead to: slot `i` is occupied
    /// exactly when entry `i` is a valid pointer.
    subtables: Vec<Option<Box<Sv39PageTable>>>,
}

impl Sv39PageTable {
    /// The table's entries.
    pub closed spec fn spec_entries(&self) -> Seq<Sv39PageTableEntry> {
        self.entries@
    }

    /// The table's subtables, in entry order.
    pub closed spec fn spec_subtables(&self) -> Seq<Option<Box<Sv39PageTable>>> {
        self.subtables@
    }

    /// The table's level, stored in the reserved bits of entry zero.
    pub open spec fn spec_level(&self) -> int {
        self.spec_entries()[LEVEL_INDEX as int].reserved as int
    }

    /// The number of live non-exclusive references, spread two bits per
    /// entry over entries one through four.
    pub open spec fn spec_reference_count(&self) -> int {
        self.spec_entries()[REFERENCE_COUNT_INDEX_0 as int].reserved + 4 * self.spec_entries()[
            REFERENCE_COUNT_INDEX_1 as int
        ].reserved + 16 * self.spec_entries()[REFERENCE_COUNT_INDEX_2 as int].reserved + 64
            * self.spec_entries()[REFERENCE_COUNT_INDEX_3 as int].reserved
    }

    /// Whether a mutable reference to this table is currently held.
    pub open spec fn spec_has_mut_reference(&self) -> bool {
        self.spec_entries()[MUT_REFERENCE_COUNT_INDEX as int].reserved > 0
    }

    /// Whether the reference lock is currently held.
    pub open spec fn spec_reference_lock_held(&self) -> bool {
        self.spec_entries()[REFERENCE_LOCK_INDEX as int].reserved > 0
    }

    /// Whether a parent table (or owning handle) points at this table.
    pub open spec fn spec_parent_reference_alive(&self) -> bool {
        self.spec_entries()[PARENT_REFERENCE_INDEX as int].reserved > 0
    }

    /// Well-formed at `level`: the table has its 512 entries and subtable
    /// slots, records `level` in entry zero, pairs a subtable with every
    /// valid pointer entry and with nothing else, and every subtable is
    /// well-formed one level down.
    pub open spec fn wf_at(&self, level: int) -> bool
        decreases level,
    {
        &&& self.spec_entries().len() == NUM_ENTRIES
        &&& self.spec_subtables().len() == NUM_ENTRIES
        &&& 0 <= level <= 2
        &&& self.spec_level() == level
        &&& forall|i: int| 0 <= i < NUM_ENTRIES ==> (#[trigger] self.spec_entries()[i]).wf()
        &&& forall|i: int|
            0 <= i < NUM_ENTRIES ==> ((#[trigger] self.spec_subtables()[i]) is Some <==> (
            self.spec_entries()[i].valid && self.spec_entries()[i].spec_is_pointer()))
        &&& forall|i: int|
            0 <= i < NUM_ENTRIES ==> ((#[trigger] self.spec_subtables()[i]) matches Some(sub)
                ==> level >= 1 && sub.wf_at(level - 1))
    }

    /// Well-formed at the level the table itself records.
    pub open spec fn wf(&self) -> bool {
        self.wf_at(self.spec_level())
    }

    /// Retrieves the level of this page table.
    pub fn level(&self) -> (r: u8)
        requires
            self.wf(),
        ensures
            r == self.spec_level(),
            r <= 2,
    {
        self.entries[LEVEL_INDEX].get_reserved()
    }

    /// Attempts to create a tag naming the `index`th entry of this table.
    pub fn make_tagged_entry(&self, index: usize) -> (r: Option<TaggedSv39PageTableEntry>)
        requires
            index <= NUM_ENTRIES,
        ensures
            r == Some(TaggedSv39PageTableEntry { index }),
    {
        TaggedSv39PageTableEntry::new(index)
    }

    /// A fresh, fully zeroed table at `level`: everything the reference
    /// and mapping machinery reads starts cleared.
    proof fn lemma_zeroed_wf(t: Sv39PageTable, level: int)
        requires
            0 <= level <= 2,
            t.spec_entries().len() == NUM_ENTRIES,
            t.spec_subtables().len() == NUM_ENTRIES,
            forall|i: int|
                0 <= i < NUM_ENTRIES && i != LEVEL_INDEX ==> #[trigger] t.spec_entries()[i]
                    == Sv39PageTableEntry::spec_zero(),
            t.spec_entries()[LEVEL_INDEX as int] == (Sv39PageTableEntry {
                reserved: level as u8,
                ..Sv39PageTableEntry::spec_zero()
            }),
            forall|i: int| 0 <= i < NUM_ENTRIES ==> (#[trigger] t.spec_subtables()[i]) is None,
        ensures
            t.wf_at(level),
    {
    }

    /// Builds a zeroed table recording `level` in entry zero.
    fn new_with_level(level: u8) -> (r: Self)
        requires
            level <= 2,
        ensures
            r.wf(),
            r.spec_level() == level,
            r.spec_reference_count() == 0,
            !r.spec_has_mut_reference(),
            !r.spec_reference_lock_held(),
            !r.spec_parent_reference_alive(),
            forall|i: int| 0 <= i < NUM_ENTRIES ==> !(#[trigger] r.spec_entries()[i]).valid,
            forall|i: int| 0 <= i < NUM_ENTRIES ==> (#[trigger] r.spec_subtables()[i]) is None,
    {
        let mut entries: Vec<Sv39PageTableEntry> = Vec::new();
        while entries.len() < NUM_ENTRIES
            invariant
                entries@.len() <= NUM_ENTRIES,
                forall|i: int|
                    0 <= i < entries@.len() ==> #[trigger] entries@[i]
                        == Sv39PageTableEntry::spec_zero(),
            decreases NUM_ENTRIES - entries@.len(),
        {
            entries.push(Sv39PageTableEntry::new());
        }
        let mut subtables: Vec<Option<Box<Sv39PageTable>>> = Vec::new();
        while subtables.len() < NUM_ENTRIES
            invariant
                subtables@.len() <= NUM_ENTRIES,
                forall|i: int| 0 <= i < subtables@.len() ==> (#[trigger] subtables@[i]) is None,
            decreases NUM_ENTRIES - subtables@.len(),
        {
            subtables.push(None);
        }
        let mut table = Self { entries, subtables };
        let mut level_entry = table.entries[LEVEL_INDEX];
        let set_result = level_entry.set_reserved(level);
        proof {
            assert(set_result is Ok);
        }
        table.entries.set(LEVEL_INDEX, level_entry);
        proof {
            Self::lemma_zeroed_wf(table, level as int);
        }
        table
    }

    /// Creates a new root (level 2) page table. The owning handle this
    /// function returns stands in as the parent, so the parent-reference
    /// flag starts set. If a subtable is needed, consider
    /// [`Self::new_subtable`] instead.
    pub fn new() -> (r: Self)
        ensures
            r.wf(),
            r.spec_level() == 2,
            r.spec_reference_count() == 0,
            !r.spec_has_mut_reference(),
            !r.spec_reference_lock_held(),
            r.spec_parent_reference_alive(),
            forall|i: int| 0 <= i < NUM_ENTRIES ==> !(#[trigger] r.spec_entries()[i]).valid,
            forall|i: int| 0 <= i < NUM_ENTRIES ==> (#[trigger] r.spec_subtables()[i]) is None,
    {
        let mut table = Self::new_with_level(2);
        table.set_parent_reference_alive();
        table
    }

    /// Creates a new, empty subtable one level below this table.
    pub fn new_subtable(&self) -> (r: Self)
        requires
            self.wf(),
            self.spec_level() >= 1,
        ensures
            r.wf(),
            r.spec_level() == self.spec_level() - 1,
            r.spec_reference_count() == 0,
            !r.spec_has_mut_reference(),
            !r.spec_reference_lock_held(),
            !r.spec_parent_reference_alive(),
            forall|i: int| 0 <= i < NUM_ENTRIES ==> !(#[trigger] r.spec_entries()[i]).valid,
            forall|i: int| 0 <= i < NUM_ENTRIES ==> (#[trigger] r.spec_subtables()[i]) is None,
    {
        let level = self.level();
        Self::new_with_level(level - 1)
    }

    /// A metadata update leaves well-formedness intact: only the reserved
    /// bits of one of entries one through seven changed.
    proof fn lemma_meta_update_wf(pre: Self, post: Self, k: int, level: int)
        requires
            pre.wf_at(level),
            1 <= k < 8,
            post.spec_subtables() == pre.spec_subtables(),
            post.spec_entries().len() == pre.spec_entries().len(),
            forall|i: int|
                0 <= i < NUM_ENTRIES && i != k ==> #[trigger] post.spec_entries()[i]
                    == pre.spec_entries()[i],
            post.spec_entries()[k].reserved <= 0b11,
            post.spec_entries()[k] == (Sv39PageTableEntry {
                reserved: post.spec_entries()[k].reserved,
                ..pre.spec_entries()[k]
            }),
        ensures
            post.wf_at(level),
            post.spec_level() == pre.spec_level(),
    {
    }

    /// Acquires the reference-counter lock (the reserved bits of entry
    /// six) and counts the handle itself as a reference. On a single
    /// hart nothing can release the lock during the bounded spin that
    /// guards it, so the lock must be free on entry; the count must have
    /// room for the handle.
    pub fn acquire_reference_lock(&mut self)
        requires
            old(self).wf(),
            !old(self).spec_reference_lock_held(),
            old(self).spec_reference_count() < 255,
        ensures
            final(self).wf(),
            final(self).spec_level() == old(self).spec_level(),
            final(self).spec_reference_lock_held(),
            final(self).spec_entries()[REFERENCE_LOCK_INDEX as int].reserved == 1,
            final(self).spec_reference_count() == old(self).spec_reference_count() + 1,
            final(self).spec_has_mut_reference() == old(self).spec_has_mut_reference(),
            final(self).spec_parent_reference_alive() == old(self).spec_parent_reference_alive(),
            final(self).spec_entries() =~= old(self).spec_entries().update(
                REFERENCE_LOCK_INDEX as int,
                final(self).spec_entries()[REFERENCE_LOCK_INDEX as int],
            ).update(
                REFERENCE_COUNT_INDEX_0 as int,
                final(self).spec_entries()[REFERENCE_COUNT_INDEX_0 as int],
            ).update(
                REFERENCE_COUNT_INDEX_1 as int,
                final(self).spec_entries()[REFERENCE_COUNT_INDEX_1 as int],
            ).update(
                REFERENCE_COUNT_INDEX_2 as int,
                final(self).spec_entries()[REFERENCE_COUNT_INDEX_2 as int],
            ).update(
                REFERENCE_COUNT_INDEX_3 as int,
                final(self).spec_entries()[REFERENCE_COUNT_INDEX_3 as int],
            ),
            final(self).spec_subtables() == old(self).spec_subtables(),
            forall|i: int|
                0 <= i < NUM_ENTRIES ==> #[trigger] final(self).spec_entries()[i] == (
                Sv39PageTableEntry {
                    reserved: final(self).spec_entries()[i].reserved,
                    ..old(self).spec_entries()[i]
                }),
    {
        let ghost level = self.spec_level();
        let ghost pre = *self;
        let mut lock_entry = self.entries[REFERENCE_LOCK_INDEX];
        let swapped = lock_entry.atomic_swap_reserved(0, 1);
        proof {
            assert(swapped is Ok);
        }
        self.entries.set(REFERENCE_LOCK_INDEX, lock_entry);
        proof {
            Self::lemma_meta_update_wf(pre, *self, REFERENCE_LOCK_INDEX as int, level);
        }
        self.increment_reference_count();
    }

    /// Releases the reference-counter lock, dropping the handle's own
    /// reference first. When the last reference goes and neither a
    /// mutable reference nor a parent keeps the table alive, the table
    /// is dead and its backing page is reclaimed — here by ownership —
    /// and the lock is left held on the dead table for good.
    pub fn release_reference_handle(&mut self)
        requires
            old(self).wf(),
            old(self).spec_reference_lock_held(),
            old(self).spec_entries()[REFERENCE_LOCK_INDEX as int].reserved == 1,
            old(self).spec_reference_count() >= 1,
        ensures
            final(self).wf(),
            final(self).spec_level() == old(self).spec_level(),
            final(self).spec_reference_count() == old(self).spec_reference_count() - 1,
            final(self).spec_has_mut_reference() == old(self).spec_has_mut_reference(),
            final(self).spec_parent_reference_alive() == old(self).spec_parent_reference_alive(),
            final(self).spec_reference_lock_held() == (old(self).spec_reference_count() == 1
                && !old(self).spec_has_mut_reference() && !old(
                self,
            ).spec_parent_reference_alive()),
            final(self).spec_subtables() == old(self).spec_subtables(),
            forall|i: int|
                0 <= i < NUM_ENTRIES ==> #[trigger] final(self).spec_entries()[i] == (
                Sv39PageTableEntry {
                    reserved: final(self).spec_entries()[i].reserved,
                    ..old(self).spec_entries()[i]
                }),
    {
        let ghost level = self.spec_level();
        self.decrement_reference_count();
        let count = self.reference_count();
        let has_mut = self.has_mut_reference();
        let has_parent = self.has_living_parent_reference();
        if count == 0 && !has_mut && !has_parent {
            // The table is dead: its backing page is reclaimed while the
            // lock stays set. The owning handle's drop does the freeing.
        } else {
            let ghost pre = *self;
            let mut lock_entry = self.entries[REFERENCE_LOCK_INDEX];
            let swapped = lock_entry.atomic_swap_reserved(1, 0);
            proof {
                assert(swapped is Ok);
            }
            self.entries.set(REFERENCE_LOCK_INDEX, lock_entry);
            proof {
                Self::lemma_meta_update_wf(pre, *self, REFERENCE_LOCK_INDEX as int, level);
            }
        }
    }

    /// Returns the number of (non-mutable) references to this table,
    /// assembled from the two-bit fields of entries one through four.
    pub fn reference_count(&self) -> (r: u8)
        requires
            self.wf(),
        ensures
            r == self.spec_reference_count(),
    {
        proof {
            assert(self.spec_entries()[1].wf());
            assert(self.spec_entries()[2].wf());
            assert(self.spec_entries()[3].wf());
            assert(self.spec_entries()[4].wf());
        }
        self.entries[REFERENCE_COUNT_INDEX_0].get_reserved() + self.entries[
            REFERENCE_COUNT_INDEX_1
        ].get_reserved() * 4 + self.entries[REFERENCE_COUNT_INDEX_2].get_reserved() * 16
            + self.entries[REFERENCE_COUNT_INDEX_3].get_reserved() * 64
    }

    /// Returns `true` if a mutable reference to this table is currently
    /// held.
    pub fn has_mut_reference(&self) -> (r: bool)
        requires
            self.wf(),
        ensures
            r == self.spec_has_mut_reference(),
    {
        self.entries[MUT_REFERENCE_COUNT_INDEX].get_reserved() > 0
    }

    /// Returns `true` if this table is pointed to by a parent table.
    pub fn has_living_parent_reference(&self) -> (r: bool)
        requires
            self.wf(),
        ensures
            r == self.spec_parent_reference_alive(),
    {
        self.entries[PARENT_REFERENCE_INDEX].get_reserved() > 0
    }

    /// Attempts to claim a mutable reference, which succeeds only when
    /// the claiming handle holds the only reference and no mutable
    /// reference is out.
    pub fn claim_mut_reference(&mut self) -> (r: bool)
        requires
            old(self).wf(),
            old(self).spec_reference_lock_held(),
        ensures
            final(self).wf(),
            final(self).spec_level() == old(self).spec_level(),
            final(self).spec_reference_count() == old(self).spec_reference_count(),
            final(self).spec_reference_lock_held(),
            final(self).spec_parent_reference_alive() == old(self).spec_parent_reference_alive(),
            final(self).spec_subtables() == old(self).spec_subtables(),
            r == (old(self).spec_reference_count() <= 1 && !old(self).spec_has_mut_reference()),
            r ==> final(self).spec_has_mut_reference(),
            !r ==> final(self).spec_has_mut_reference() == old(self).spec_has_mut_reference(),
            forall|i: int|
                0 <= i < NUM_ENTRIES ==> #[trigger] final(self).spec_entries()[i] == (
                Sv39PageTableEntry {
                    reserved: final(self).spec_entries()[i].reserved,
                    ..old(self).spec_entries()[i]
                }),
    {
        let ghost level = self.spec_level();
        let ghost pre = *self;
        if self.reference_count() > 1 {
            return false;
        }
        let mut mut_entry = self.entries[MUT_REFERENCE_COUNT_INDEX];
        let swapped = mut_entry.atomic_swap_reserved(0, 1);
        match swapped {
            Ok(_) => {
                self.entries.set(MUT_REFERENCE_COUNT_INDEX, mut_entry);
                proof {
                    Self::lemma_meta_update_wf(
                        pre,
                        *self,
                        MUT_REFERENCE_COUNT_INDEX as int,
                        level,
                    );
                }
                true
            },
            Err(_) => false,
        }
    }

    /// Releases a claimed mutable reference. Releasing one that is not
    /// held is a fatal invariant violation, so that is excluded.
    pub fn release_mut_reference(&mut self)
        requires
            old(self).wf(),
            old(self).spec_has_mut_reference(),
            old(self).spec_entries()[MUT_REFERENCE_COUNT_INDEX as int].reserved == 1,
        ensures
            final(self).wf(),
            final(self).spec_level() == old(self).spec_level(),
            final(self).spec_reference_count() == old(self).spec_reference_count(),
            final(self).spec_reference_lock_held() == old(self).spec_reference_lock_held(),
            final(self).spec_parent_reference_alive() == old(self).spec_parent_reference_alive(),
            final(self).spec_subtables() == old(self).spec_subtables(),
            !final(self).spec_has_mut_reference(),
            forall|i: int|
                0 <= i < NUM_ENTRIES ==> #[trigger] final(self).spec_entries()[i] == (
                Sv39PageTableEntry {
                    reserved: final(self).spec_entries()[i].reserved,
                    ..old(self).spec_entries()[i]
                }),
    {
        let ghost level = self.spec_level();
        let ghost pre = *self;
        let mut mut_entry = self.entries[MUT_REFERENCE_COUNT_INDEX];
        let swapped = mut_entry.atomic_swap_reserved(1, 0);
        proof {
            assert(swapped is Ok);
        }
        self.entries.set(MUT_REFERENCE_COUNT_INDEX, mut_entry);
        proof {
            Self::lemma_meta_update_wf(pre, *self, MUT_REFERENCE_COUNT_INDEX as int, level);
        }
    }

    /// Increments the reference count, rippling the carry through the
    /// two-bit fields. Overflowing the eight-bit count is a fatal
    /// invariant violation and is excluded.
    pub fn increment_reference_count(&mut self)
        requires
            old(self).wf(),
            old(self).spec_reference_count() < 255,
        ensures
            final(self).wf(),
            final(self).spec_level() == old(self).spec_level(),
            final(self).spec_reference_count() == old(self).spec_reference_count() + 1,
            final(self).spec_has_mut_reference() == old(self).spec_has_mut_reference(),
            final(self).spec_reference_lock_held() == old(self).spec_reference_lock_held(),
            final(self).spec_parent_reference_alive() == old(self).spec_parent_reference_alive(),
            final(self).spec_entries() =~= old(self).spec_entries().update(
                REFERENCE_COUNT_INDEX_0 as int,
                final(self).spec_entries()[REFERENCE_COUNT_INDEX_0 as int],
            ).update(
                REFERENCE_COUNT_INDEX_1 as int,
                final(self).spec_entries()[REFERENCE_COUNT_INDEX_1 as int],
            ).update(
                REFERENCE_COUNT_INDEX_2 as int,
                final(self).spec_entries()[REFERENCE_COUNT_INDEX_2 as int],
            ).update(
                REFERENCE_COUNT_INDEX_3 as int,
                final(self).spec_entries()[REFERENCE_COUNT_INDEX_3 as int],
            ),
            final(self).spec_subtables() == old(self).spec_subtables(),
            forall|i: int|
                0 <= i < NUM_ENTRIES ==> #[trigger] final(self).spec_entries()[i] == (
                Sv39PageTableEntry {
                    reserved: final(self).spec_entries()[i].reserved,
                    ..old(self).spec_entries()[i]
                }),
    {
        let ghost level = self.spec_level();
        let r0 = self.entries[REFERENCE_COUNT_INDEX_0].get_reserved();
        if r0 < 3 {
            self.set_count_field(REFERENCE_COUNT_INDEX_0, r0 + 1);
            return ;
        }
        self.set_count_field(REFERENCE_COUNT_INDEX_0, 0);
        let r1 = self.entries[REFERENCE_COUNT_INDEX_1].get_reserved();
        if r1 < 3 {
            self.set_count_field(REFERENCE_COUNT_INDEX_1, r1 + 1);
            return ;
        }
        self.set_count_field(REFERENCE_COUNT_INDEX_1, 0);
        let r2 = self.entries[REFERENCE_COUNT_INDEX_2].get_reserved();
        if r2 < 3 {
            self.set_count_field(REFERENCE_COUNT_INDEX_2, r2 + 1);
            return ;
        }
        self.set_count_field(REFERENCE_COUNT_INDEX_2, 0);
        let r3 = self.entries[REFERENCE_COUNT_INDEX_3].get_reserved();
        proof {
            // All lower fields were saturated, so the count has room only
            // if this one does.
            assert(r3 < 3);
        }
        self.set_count_field(REFERENCE_COUNT_INDEX_3, r3 + 1);
    }

    /// Decrements the reference count, borrowing down through the two-bit
    /// fields. Underflowing the eight-bit count is a fatal invariant
    /// violation and is excluded.
    pub fn decrement_reference_count(&mut self)
        requires
            old(self).wf(),
            old(self).spec_reference_count() >= 1,
        ensures
            final(self).wf(),
            final(self).spec_level() == old(self).spec_level(),
            final(self).spec_reference_count() == old(self).spec_reference_count() - 1,
            final(self).spec_has_mut_reference() == old(self).spec_has_mut_reference(),
            final(self).spec_reference_lock_held() == old(self).spec_reference_lock_held(),
            final(self).spec_parent_reference_alive() == old(self).spec_parent_reference_alive(),
            final(self).spec_entries() =~= old(self).spec_entries().update(
                REFERENCE_COUNT_INDEX_0 as int,
                final(self).spec_entries()[REFERENCE_COUNT_INDEX_0 as int],
            ).update(
                REFERENCE_COUNT_INDEX_1 as int,
                final(self).spec_entries()[REFERENCE_COUNT_INDEX_1 as int],
            ).update(
                REFERENCE_COUNT_INDEX_2 as int,
                final(self).spec_entries()[REFERENCE_COUNT_INDEX_2 as int],
            ).update(
                REFERENCE_COUNT_INDEX_3 as int,
                final(self).spec_entries()[REFERENCE_COUNT_INDEX_3 as int],
            ),
            final(self).spec_subtables() == old(self).spec_subtables(),
            forall|i: int|
                0 <= i < NUM_ENTRIES ==> #[trigger] final(self).spec_entries()[i] == (
                Sv39PageTableEntry {
                    reserved: final(self).spec_entries()[i].reserved,
                    ..old(self).spec_entries()[i]
                }),
    {
        let ghost level = self.spec_level();
        let r0 = self.entries[REFERENCE_COUNT_INDEX_0].get_reserved();
        if r0 > 0 {
            self.set_count_field(REFERENCE_COUNT_INDEX_0, r0 - 1);
            return ;
        }
        self.set_count_field(REFERENCE_COUNT_INDEX_0, 3);
        let r1 = self.entries[REFERENCE_COUNT_INDEX_1].get_reserved();
        if r1 > 0 {
            self.set_count_field(REFERENCE_COUNT_INDEX_1, r1 - 1);
            return ;
        }
        self.set_count_field(REFERENCE_COUNT_INDEX_1, 3);
        let r2 = self.entries[REFERENCE_COUNT_INDEX_2].get_reserved();
        if r2 > 0 {
            self.set_count_field(REFERENCE_COUNT_INDEX_2, r2 - 1);
            return ;
        }
        self.set_count_field(REFERENCE_COUNT_INDEX_2, 3);
        let r3 = self.entries[REFERENCE_COUNT_INDEX_3].get_reserved();
        proof {
            // All lower fields were zero, so this one carries the count.
            assert(r3 > 0);
        }
        self.set_count_field(REFERENCE_COUNT_INDEX_3, r3 - 1);
    }

    /// Writes one two-bit field of the reference count.
    fn set_count_field(&mut self, k: usize, v: u8)
        requires
            old(self).wf(),
            1 <= k <= 4,
            v <= 3,
        ensures
            final(self).wf(),
            final(self).spec_level() == old(self).spec_level(),
            final(self).spec_entries() == old(self).spec_entries().update(
                k as int,
                final(self).spec_entries()[k as int],
            ),
            final(self).spec_entries()[k as int] == (Sv39PageTableEntry {
                reserved: v,
                ..old(self).spec_entries()[k as int]
            }),
            final(self).spec_has_mut_reference() == old(self).spec_has_mut_reference(),
            final(self).spec_reference_lock_held() == old(self).spec_reference_lock_held(),
            final(self).spec_parent_reference_alive() == old(self).spec_parent_reference_alive(),
            final(self).spec_subtables() == old(self).spec_subtables(),
            forall|i: int|
                0 <= i < NUM_ENTRIES ==> #[trigger] final(self).spec_entries()[i] == (
                Sv39PageTableEntry {
                    reserved: final(self).spec_entries()[i].reserved,
                    ..old(self).spec_entries()[i]
                }),
    {
        let ghost level = self.spec_level();
        let ghost pre = *self;
        let mut entry = self.entries[k];
        let set_result = entry.set_reserved(v);
        proof {
            assert(set_result is Ok);
        }
        self.entries.set(k, entry);
        proof {
            Self::lemma_meta_update_wf(pre, *self, k as int, level);
        }
    }

    /// Marks this table's parent reference as alive, preventing this
    /// table from freeing its underlying memory. Only the parent calls
    /// this, exactly once: setting a flag that is already set is a fatal
    /// invariant violation.
    pub fn set_parent_reference_alive(&mut self)
        requires
            old(self).wf(),
            !old(self).spec_parent_reference_alive(),
        ensures
            final(self).wf(),
            final(self).spec_level() == old(self).spec_level(),
            final(self).spec_reference_count() == old(self).spec_reference_count(),
            final(self).spec_has_mut_reference() == old(self).spec_has_mut_reference(),
            final(self).spec_reference_lock_held() == old(self).spec_reference_lock_held(),
            final(self).spec_parent_reference_alive(),
            final(self).spec_subtables() == old(self).spec_subtables(),
            final(self).spec_entries() == old(self).spec_entries().update(
                PARENT_REFERENCE_INDEX as int,
                final(self).spec_entries()[PARENT_REFERENCE_INDEX as int],
            ),
            forall|i: int|
                0 <= i < NUM_ENTRIES ==> (#[trigger] final(self).spec_entries()[i]).valid == old(
                    self,
                ).spec_entries()[i].valid && final(self).spec_entries()[i].spec_is_pointer()
                    == old(self).spec_entries()[i].spec_is_pointer(),
            forall|i: int|
                0 <= i < NUM_ENTRIES ==> #[trigger] final(self).spec_entries()[i] == (
                Sv39PageTableEntry {
                    reserved: final(self).spec_entries()[i].reserved,
                    ..old(self).spec_entries()[i]
                }),
    {
        let ghost level = self.spec_level();
        let ghost pre = *self;
        let mut parent_entry = self.entries[PARENT_REFERENCE_INDEX];
        let swapped = parent_entry.atomic_swap_reserved(0, 1);
        proof {
            assert(swapped is Ok);
        }
        self.entries.set(PARENT_REFERENCE_INDEX, parent_entry);
        proof {
            Self::lemma_meta_update_wf(pre, *self, PARENT_REFERENCE_INDEX as int, level);
        }
    }

    /// Marks this table's parent reference as dead, possibly allowing it
    /// to free its memory. Only the parent calls this, exactly once:
    /// clearing a flag that is not set is a fatal invariant violation.
    pub fn clear_parent_reference_alive(&mut self)
        requires
            old(self).wf(),
            old(self).spec_parent_reference_alive(),
            old(self).spec_entries()[PARENT_REFERENCE_INDEX as int].reserved == 1,
        ensures
            final(self).wf(),
            final(self).spec_level() == old(self).spec_level(),
            final(self).spec_reference_count() == old(self).spec_reference_count(),
            final(self).spec_has_mut_reference() == old(self).spec_has_mut_reference(),
            final(self).spec_reference_lock_held() == old(self).spec_reference_lock_held(),
            !final(self).spec_parent_reference_alive(),
            final(self).spec_subtables() == old(self).spec_subtables(),
            forall|i: int|
                0 <= i < NUM_ENTRIES ==> #[trigger] final(self).spec_entries()[i] == (
                Sv39PageTableEntry {
                    reserved: final(self).spec_entries()[i].reserved,
                    ..old(self).spec_entries()[i]
                }),
    {
        let ghost level = self.spec_level();
        let ghost pre = *self;
        let mut parent_entry = self.entries[PARENT_REFERENCE_INDEX];
        let swapped = parent_entry.atomic_swap_reserved(1, 0);
        proof {
            assert(swapped is Ok);
        }
        self.entries.set(PARENT_REFERENCE_INDEX, parent_entry);
        proof {
            Self::lemma_meta_update_wf(pre, *self, PARENT_REFERENCE_INDEX as int, level);
        }
    }
}

/// Whether the upper bits of a virtual address are well-formed: bits 63
/// down to 39 must all equal bit 38.
pub open spec fn spec_upper_bits_ok(va: u64) -> bool {
    if (va >> 38) & 1 == 1 {
        va >> 39 == 0x1FF_FFFF
    } else {
        va >> 39 == 0
    }
}

/// The entry index a virtual address selects in a table of the given
/// level: nine bits starting at bit `12 + 9 * level`.
pub open spec fn spec_index_at(va: u64, level: int) -> int {
    ((va >> ((12 + 9 * level) as u64)) & 0x1FF) as int
}

/// The physical-address bits a leaf entry contributes at the given
/// level: the PPN fields from that level up, each in its place.
pub open spec fn spec_leaf_high(e: Sv39PageTableEntry, level: int) -> u64 {
    if level == 0 {
        ((e.ppn & 0x1FF) << 12) | (((e.ppn >> 9) & 0x1FF) << 21) | ((e.ppn >> 18) << 30)
    } else if level == 1 {
        (((e.ppn >> 9) & 0x1FF) << 21) | ((e.ppn >> 18) << 30)
    } else {
        (e.ppn >> 18) << 30
    }
}

/// The physical address a leaf entry translates `va` to: the entry's
/// high bits joined with the low bits of the address (page offset and
/// superpage bits).
pub open spec fn spec_leaf_address(e: Sv39PageTableEntry, level: int, va: u64) -> u64 {
    spec_leaf_high(e, level) | (va & (((1u64 << ((12 + 9 * level) as u64)) - 1) as u64))
}

/// What translating `va` through a table of the given level yields:
/// malformed upper bits fail, an invalid entry fails, a pointer at level
/// zero fails, another pointer descends, and a leaf assembles the
/// physical address.
pub open spec fn spec_translate(t: Sv39PageTable, level: int, va: u64) -> Result<
    u64,
    VirtualAddressTranslationError,
>
    decreases level,
{
    if !spec_upper_bits_ok(va) {
        Err(VirtualAddressTranslationError::UpperBitsMalformed)
    } else {
        let index = spec_index_at(va, level);
        let e = t.spec_entries()[index];
        if !e.valid {
            Err(
                VirtualAddressTranslationError::InvalidEntry(
                    Some(TaggedSv39PageTableEntry { index: index as usize }),
                ),
            )
        } else if e.spec_is_pointer() {
            if level <= 0 {
                Err(
                    VirtualAddressTranslationError::LevelZeroPointer(
                        Some(TaggedSv39PageTableEntry { index: index as usize }),
                    ),
                )
            } else {
                spec_translate(*t.spec_subtables()[index]->Some_0, level - 1, va)
            }
        } else {
            Ok(spec_leaf_address(e, level, va))
        }
    }
}

/// With well-formed upper bits, translation never reports them
/// malformed, at any level of the descent.
pub proof fn lemma_translate_upper_ok(t: Sv39PageTable, level: int, va: u64)
    requires
        spec_upper_bits_ok(va),
    ensures
        spec_translate(t, level, va) != Err::<u64, VirtualAddressTranslationError>(
            VirtualAddressTranslationError::UpperBitsMalformed,
        ),
    decreases level,
{
    let index = spec_index_at(va, level);
    let e = t.spec_entries()[index];
    if e.valid && e.spec_is_pointer() && level >= 1 {
        lemma_translate_upper_ok(*t.spec_subtables()[index]->Some_0, level - 1, va);
    }
}

/// A well-formed table never reports a level-zero pointer: its own
/// well-formedness pairs every valid pointer entry with a subtable, and
/// a level-zero table can have none. For such a table a failed
/// translation is only ever malformed upper bits or an invalid entry.
pub proof fn lemma_translate_never_level_zero(t: Sv39PageTable, level: int, va: u64)
    requires
        t.wf_at(level),
    ensures
        !(spec_translate(t, level, va) matches Err(
            VirtualAddressTranslationError::LevelZeroPointer(_),
        )),
    decreases level,
{
    if spec_upper_bits_ok(va) {
        lemma_index_bound(va, level);
        let index = spec_index_at(va, level);
        let e = t.spec_entries()[index];
        if e.valid && e.spec_is_pointer() {
            // The subtable slot is occupied, so the level is at least
            // one and the descent continues into a well-formed table.
            assert(t.spec_subtables()[index] is Some);
            lemma_translate_never_level_zero(*t.spec_subtables()[index]->Some_0, level - 1, va);
        }
    }
}

impl Sv39PageTable {
    /// Determines the resulting physical address of mapping
    /// `virtual_address` with this table, or what went wrong with the
    /// translation: malformed upper bits, an invalid entry, or a pointer
    /// in a level-zero table. The upper 25 bits of the address must match
    /// bit 38.
    pub fn map(&self, virtual_address: u64) -> (r: Result<u64, VirtualAddressTranslationError>)
        requires
            self.wf(),
        ensures
            r == spec_translate(*self, self.spec_level(), virtual_address),
            !spec_upper_bits_ok(virtual_address) <==> r == Err::<
                u64,
                VirtualAddressTranslationError,
            >(VirtualAddressTranslationError::UpperBitsMalformed),
            !(r matches Err(VirtualAddressTranslationError::LevelZeroPointer(_))),
        decreases self.spec_level(),
    {
        proof {
            if spec_upper_bits_ok(virtual_address) {
                lemma_translate_upper_ok(*self, self.spec_level(), virtual_address);
            }
            lemma_translate_never_level_zero(*self, self.spec_level(), virtual_address);
        }
        let high_bit = (virtual_address >> 38) & 1;
        let upper = virtual_address >> 39;
        let upper_ok = if high_bit == 1 {
            upper == 0x1FF_FFFF
        } else {
            upper == 0
        };
        if !upper_ok {
            return Err(VirtualAddressTranslationError::UpperBitsMalformed);
        }
        let level = self.level();
        let offset = 12 + 9 * (level as u64);
        let index = ((virtual_address >> offset) & 0x1FF) as usize;
        proof {
            assert((virtual_address >> offset) & 0x1FF < 512) by (bit_vector);
        }
        let entry = self.entries[index];
        if !entry.is_valid() {
            return Err(VirtualAddressTranslationError::InvalidEntry(
                self.make_tagged_entry(index),
            ));
        }
        if entry.is_pointer() {
            if level == 0 {
                return Err(VirtualAddressTranslationError::LevelZeroPointer(
                    self.make_tagged_entry(index),
                ));
            }
            match &self.subtables[index] {
                Some(subtable) => {
                    proof {
                        assert(self.spec_subtables()[index as int] matches Some(sub)
                            ==> sub.wf_at(self.spec_level() - 1));
                        assert((**subtable).wf_at(self.spec_level() - 1));
                        assert((**subtable).spec_level() == self.spec_level() - 1);
                        assert((**subtable).wf());
                    }
                    return subtable.map(virtual_address);
                },
                None => {
                    // A valid pointer always has its subtable.
                    proof {
                        assert(false);
                    }
                    return Err(VirtualAddressTranslationError::UpperBitsMalformed);
                },
            }
        }
        proof {
            assert(1u64 << offset >= 1) by (bit_vector)
                requires
                    offset < 64,
            ;
        }
        let low = virtual_address & ((1u64 << offset) - 1);
        let high = if level == 0 {
            ((entry.ppn & 0x1FF) << 12) | (((entry.ppn >> 9) & 0x1FF) << 21) | ((entry.ppn >> 18)
                << 30)
        } else if level == 1 {
            (((entry.ppn >> 9) & 0x1FF) << 21) | ((entry.ppn >> 18) << 30)
        } else {
            (entry.ppn >> 18) << 30
        };
        Ok(high | low)
    }
}

/// The leaf entry that installing a direct mapping writes: valid, with
/// the requested permissions and the low 44 bits of the physical address
/// as its page number. Other fields of the overwritten entry survive, but
/// translation reads none of them.
pub open spec fn spec_installed_entry(pa: u64, perms: PagePermissions) -> Sv39PageTableEntry {
    Sv39PageTableEntry {
        valid: true,
        readable: perms.spec_read_allowed(),
        writable: perms.spec_write_allowed(),
        executable: perms.spec_execute_allowed(),
        ppn: ((pa & 0xFFF_FFFF_FFFF) >> 12) as u64,
        ..Sv39PageTableEntry::spec_zero()
    }
}

/// Whether `va2` selects the same slot as `va` along the whole descent
/// from a table of the given level down to the target level: the two
/// agree on the index bits of every level in between.
pub open spec fn spec_va_span_matches(va2: u64, va: u64, target: int, level: int) -> bool {
    (va2 >> ((12 + 9 * target) as u64)) & (((1u64 << ((9 * (level - target) + 9) as u64))
        - 1) as u64) == (va >> ((12 + 9 * target) as u64)) & (((1u64 << ((9 * (level - target)
        + 9) as u64)) - 1) as u64)
}

/// Two translation results agree on success: they succeed together, and
/// with the same address.
pub open spec fn spec_same_ok(
    a: Result<u64, VirtualAddressTranslationError>,
    b: Result<u64, VirtualAddressTranslationError>,
) -> bool {
    (a is Ok <==> b is Ok) && (a is Ok ==> a == b)
}

/// What installing a mapping yields: a target level above the table's
/// fails; at the target level, only an invalid entry accepts the mapping;
/// below it, an invalid entry grows a fresh chain of subtables (which
/// always succeeds), a pointer descends, and a leaf is in the way.
pub open spec fn spec_set_map_outcome(
    t: Sv39PageTable,
    level: int,
    va: u64,
    target: int,
) -> Result<(), VirtualAddressSetMappingError>
    decreases level,
    when 0 <= target

{
    if target > level {
        Err(VirtualAddressSetMappingError::ImpossibleLevel(target as u8))
    } else {
        let index = spec_index_at(va, level);
        let e = t.spec_entries()[index];
        if target == level {
            if !e.valid {
                Ok(())
            } else if e.spec_is_pointer() {
                Err(
                    VirtualAddressSetMappingError::MappingIsActivePointer(
                        Some(TaggedSv39PageTableEntry { index: index as usize }),
                    ),
                )
            } else {
                Err(
                    VirtualAddressSetMappingError::AddressAlreadyInUse(
                        Some(TaggedSv39PageTableEntry { index: index as usize }),
                    ),
                )
            }
        } else if !e.valid {
            Ok(())
        } else if e.spec_is_pointer() {
            spec_set_map_outcome(*t.spec_subtables()[index]->Some_0, level - 1, va, target)
        } else {
            Err(
                VirtualAddressSetMappingError::AddressAlreadyInUse(
                    Some(TaggedSv39PageTableEntry { index: index as usize }),
                ),
            )
        }
    }
}

/// An entry index is nine bits: always within a table.
proof fn lemma_index_bound(va2: u64, level: int)
    requires
        0 <= level <= 2,
    ensures
        0 <= spec_index_at(va2, level) < 512,
{
    let off = (12 + 9 * level) as u64;
    assert((va2 >> off) & 0x1FF < 512) by (bit_vector);
}

/// Agreement over a span gives the same index at its top level.
proof fn lemma_span_gives_index(va2: u64, va: u64, t: u64, l: u64)
    requires
        t <= l <= 2,
        spec_va_span_matches(va2, va, t as int, l as int),
    ensures
        spec_index_at(va2, l as int) == spec_index_at(va, l as int),
{
    assert((va2 >> ((12 + 9 * l) as u64)) & 0x1FF == (va >> ((12 + 9 * l) as u64)) & 0x1FF)
        by (bit_vector)
        requires
            t <= l <= 2,
            (va2 >> ((12 + 9 * t) as u64)) & (((1u64 << ((9 * (l - t) + 9) as u64)) - 1) as u64)
                == (va >> ((12 + 9 * t) as u64)) & (((1u64 << ((9 * (l - t) + 9) as u64))
                - 1) as u64),
    ;
}

/// Agreement over a span restricts to the span one level down.
proof fn lemma_span_step(va2: u64, va: u64, t: u64, l: u64)
    requires
        t < l <= 2,
        spec_va_span_matches(va2, va, t as int, l as int),
    ensures
        spec_va_span_matches(va2, va, t as int, l as int - 1),
{
    assert((va2 >> ((12 + 9 * t) as u64)) & (((1u64 << ((9 * ((l - 1) - t) + 9) as u64))
        - 1) as u64) == (va >> ((12 + 9 * t) as u64)) & (((1u64 << ((9 * ((l - 1) - t)
        + 9) as u64)) - 1) as u64)) by (bit_vector)
        requires
            t < l <= 2,
            (va2 >> ((12 + 9 * t) as u64)) & (((1u64 << ((9 * (l - t) + 9) as u64)) - 1) as u64)
                == (va >> ((12 + 9 * t) as u64)) & (((1u64 << ((9 * (l - t) + 9) as u64))
                - 1) as u64),
    ;
    assert(9 * ((l - 1) as int - t) + 9 == 9 * (l as int - 1 - t) + 9);
}

/// The same top-level index and agreement one level down give agreement
/// over the whole span.
proof fn lemma_span_recover(va2: u64, va: u64, t: u64, l: u64)
    requires
        t < l <= 2,
        spec_index_at(va2, l as int) == spec_index_at(va, l as int),
        spec_va_span_matches(va2, va, t as int, l as int - 1),
    ensures
        spec_va_span_matches(va2, va, t as int, l as int),
{
    assert((va2 >> ((12 + 9 * t) as u64)) & (((1u64 << ((9 * (l - t) + 9) as u64)) - 1) as u64)
        == (va >> ((12 + 9 * t) as u64)) & (((1u64 << ((9 * (l - t) + 9) as u64)) - 1) as u64))
        by (bit_vector)
        requires
            t < l <= 2,
            (va2 >> ((12 + 9 * l) as u64)) & 0x1FF == (va >> ((12 + 9 * l) as u64)) & 0x1FF,
            (va2 >> ((12 + 9 * t) as u64)) & (((1u64 << ((9 * ((l - 1) - t) + 9) as u64))
                - 1) as u64) == (va >> ((12 + 9 * t) as u64)) & (((1u64 << ((9 * ((l - 1) - t)
                + 9) as u64)) - 1) as u64),
    ;
}

/// At the target level itself, span agreement is exactly index equality.
proof fn lemma_span_base(va2: u64, va: u64, t: u64)
    requires
        t <= 2,
    ensures
        spec_va_span_matches(va2, va, t as int, t as int) == (spec_index_at(va2, t as int)
            == spec_index_at(va, t as int)),
{
    assert(((va2 >> ((12 + 9 * t) as u64)) & (((1u64 << 9u64) - 1) as u64) == (va >> ((12 + 9
        * t) as u64)) & (((1u64 << 9u64) - 1) as u64)) == ((va2 >> ((12 + 9 * t) as u64)) & 0x1FF
        == (va >> ((12 + 9 * t) as u64)) & 0x1FF)) by (bit_vector);
    assert(9 * (t as int - t as int) + 9 == 9);
}

impl Sv39PageTable {
    /// Maps from `virtual_address` to `physical_address` with this table,
    /// creating subtables as necessary. The grain of the mapping is
    /// determined by `level`: `12 + level * 9` bits of detail are mapped,
    /// starting with the least significant. On success, every
    /// well-formed address that selects the same slots translates through
    /// the installed leaf; every other address translates to whatever it
    /// did before.
    pub fn set_map(
        &mut self,
        virtual_address: u64,
        physical_address: u64,
        level: u8,
        permissions: PagePermissions,
    ) -> (r: Result<(), VirtualAddressSetMappingError>)
        requires
            old(self).wf(),
        ensures
            final(self).wf(),
            final(self).spec_level() == old(self).spec_level(),
            forall|i: int|
                0 <= i < NUM_ENTRIES ==> (#[trigger] final(self).spec_entries()[i]).reserved
                    == old(self).spec_entries()[i].reserved,
            r == spec_set_map_outcome(
                *old(self),
                old(self).spec_level(),
                virtual_address,
                level as int,
            ),
            r is Err ==> forall|va2: u64|
                #[trigger] spec_translate(*final(self), final(self).spec_level(), va2)
                    == spec_translate(*old(self), old(self).spec_level(), va2),
            r is Ok ==> forall|va2: u64|
                spec_upper_bits_ok(va2) ==> if spec_va_span_matches(
                    va2,
                    virtual_address,
                    level as int,
                    old(self).spec_level(),
                ) {
                    #[trigger] spec_translate(*final(self), final(self).spec_level(), va2) == Ok::<
                        u64,
                        VirtualAddressTranslationError,
                    >(
                        spec_leaf_address(
                            spec_installed_entry(physical_address, permissions),
                            level as int,
                            va2,
                        ),
                    )
                } else {
                    spec_same_ok(
                        spec_translate(*final(self), final(self).spec_level(), va2),
                        spec_translate(*old(self), old(self).spec_level(), va2),
                    )
                },
        decreases old(self).spec_level(),
    {
        let ghost pre = *self;
        let current_level = self.level();
        if level > current_level {
            return Err(VirtualAddressSetMappingError::ImpossibleLevel(level));
        }
        let offset = 12 + 9 * (current_level as u64);
        let index = ((virtual_address >> offset) & 0x1FF) as usize;
        proof {
            assert((virtual_address >> offset) & 0x1FF < 512) by (bit_vector);
        }
        let entry = self.entries[index];

        if level == current_level {
            if !entry.is_valid() {
                let mut new_entry = entry;
                new_entry.set_to_direct_mapping(physical_address, permissions);
                self.entries.set(index, new_entry);
                proof {
                    assert(!new_entry.spec_is_pointer());
                    assert(new_entry.wf()) by {
                        assert(((physical_address & 0xFFF_FFFF_FFFF) >> 12) < 0x1000_0000_0000)
                            by (bit_vector);
                    }
                    assert(self.wf_at(current_level as int));
                    self.lemma_set_map_leaf(
                        pre,
                        virtual_address,
                        physical_address,
                        level,
                        permissions,
                        index as int,
                    );
                }
                return Ok(());
            }
            if entry.is_pointer() {
                return Err(VirtualAddressSetMappingError::MappingIsActivePointer(
                    self.make_tagged_entry(index),
                ));
            }
            return Err(VirtualAddressSetMappingError::AddressAlreadyInUse(
                self.make_tagged_entry(index),
            ));
        }
        if !entry.is_valid() {
            let mut subtable = self.new_subtable();
            // Bring the child's parent reference alive through its
            // reference-counter lock, as installing the pointer does.
            subtable.acquire_reference_lock();
            subtable.set_parent_reference_alive();
            subtable.release_reference_handle();
            let ghost fresh_child = subtable;
            proof {
                assert forall|i: int|
                    0 <= i < NUM_ENTRIES implies !(#[trigger] fresh_child.spec_entries()[i]).valid by {}
                lemma_index_bound(virtual_address, current_level as int - 1);
            }
            let sub_result = subtable.set_map(virtual_address, physical_address, level, permissions);
            proof {
                // A fresh subtable has only invalid entries: installing
                // into it succeeds.
                assert(sub_result is Ok);
                // And outside the installed path the fresh chain
                // translates nothing, exactly like the invalid entry.
                assert forall|va2: u64|
                    spec_upper_bits_ok(va2) && !spec_va_span_matches(
                        va2,
                        virtual_address,
                        level as int,
                        current_level as int - 1,
                    ) implies !(spec_translate(subtable, current_level as int - 1, va2)
                    is Ok) by {
                    Self::lemma_all_invalid_translates_err(
                        fresh_child,
                        current_level as int - 1,
                        va2,
                    );
                }
            }
            let mut pointer_entry = entry;
            pointer_entry.set_valid(false);
            let ppn_result = pointer_entry.set_physical_page_number(0);
            proof {
                assert(ppn_result is Ok);
            }
            pointer_entry.set_readable(false);
            pointer_entry.set_writable(false);
            pointer_entry.set_executable(false);
            pointer_entry.set_valid(true);
            self.entries.set(index, pointer_entry);
            self.subtables.set(index, Some(Box::new(subtable)));
            proof {
                assert(self.wf_at(current_level as int));
                self.lemma_set_map_fresh_chain(
                    pre,
                    virtual_address,
                    physical_address,
                    level,
                    permissions,
                    index as int,
                );
            }
            return Ok(());
        }
        if entry.is_pointer() {
            proof {
                assert(pre.spec_subtables()[index as int] matches Some(sub) ==> sub.wf_at(
                    pre.spec_level() - 1,
                ));
            }
            let outcome;
            match &mut self.subtables[index] {
                Some(subtable) => {
                    proof {
                        assert((**subtable).wf_at(pre.spec_level() - 1));
                        assert((**subtable).wf());
                    }
                    outcome = subtable.set_map(
                        virtual_address,
                        physical_address,
                        level,
                        permissions,
                    );
                },
                None => {
                    proof {
                        assert(false);
                    }
                    outcome = Err(VirtualAddressSetMappingError::ImpossibleLevel(level));
                },
            }
            proof {
                assert(self.wf_at(current_level as int));
                self.lemma_set_map_descend(
                    pre,
                    virtual_address,
                    physical_address,
                    level,
                    permissions,
                    index as int,
                    outcome,
                );
            }
            return outcome;
        }
        Err(VirtualAddressSetMappingError::AddressAlreadyInUse(self.make_tagged_entry(index)))
    }
}

impl Sv39PageTable {
    /// A table with only invalid entries translates nothing.
    proof fn lemma_all_invalid_translates_err(t: Sv39PageTable, level: int, va2: u64)
        requires
            0 <= level <= 2,
            t.spec_entries().len() == NUM_ENTRIES,
            forall|i: int| 0 <= i < NUM_ENTRIES ==> !(#[trigger] t.spec_entries()[i]).valid,
        ensures
            !(spec_translate(t, level, va2) is Ok),
    {
        if spec_upper_bits_ok(va2) {
            if 0 <= level <= 2 {
                lemma_index_bound(va2, level);
            }
        }
    }

    /// Installing a leaf at the target level translates every address
    /// that selects the same slot through it, and touches nothing else.
    proof fn lemma_set_map_leaf(
        &self,
        pre: Sv39PageTable,
        va: u64,
        pa: u64,
        target: u8,
        perms: PagePermissions,
        index: int,
    )
        requires
            pre.wf(),
            target == pre.spec_level(),
            index == spec_index_at(va, target as int),
            !pre.spec_entries()[index].valid,
            self.spec_level() == pre.spec_level(),
            self.spec_entries().len() == NUM_ENTRIES,
            self.spec_subtables() == pre.spec_subtables(),
            forall|i: int|
                0 <= i < NUM_ENTRIES && i != index ==> #[trigger] self.spec_entries()[i]
                    == pre.spec_entries()[i],
            self.spec_entries()[index].valid,
            !self.spec_entries()[index].spec_is_pointer(),
            self.spec_entries()[index].ppn == spec_installed_entry(pa, perms).ppn,
        ensures
            forall|va2: u64|
                spec_upper_bits_ok(va2) ==> if spec_va_span_matches(
                    va2,
                    va,
                    target as int,
                    pre.spec_level(),
                ) {
                    #[trigger] spec_translate(*self, self.spec_level(), va2) == Ok::<
                        u64,
                        VirtualAddressTranslationError,
                    >(spec_leaf_address(spec_installed_entry(pa, perms), target as int, va2))
                } else {
                    spec_same_ok(
                        spec_translate(*self, self.spec_level(), va2),
                        spec_translate(pre, pre.spec_level(), va2),
                    )
                },
    {
        let t = target as int;
        assert forall|va2: u64| spec_upper_bits_ok(va2) implies (if spec_va_span_matches(
            va2,
            va,
            t,
            pre.spec_level(),
        ) {
            spec_translate(*self, self.spec_level(), va2) == Ok::<
                u64,
                VirtualAddressTranslationError,
            >(spec_leaf_address(spec_installed_entry(pa, perms), t, va2))
        } else {
            spec_same_ok(
                spec_translate(*self, self.spec_level(), va2),
                spec_translate(pre, pre.spec_level(), va2),
            )
        }) by {
            lemma_span_base(va2, va, target as u64);
            let i2 = spec_index_at(va2, t);
            lemma_index_bound(va2, t);
            if spec_va_span_matches(va2, va, t, pre.spec_level()) {
                assert(i2 == index);
                assert(spec_leaf_high(self.spec_entries()[index], t) == spec_leaf_high(
                    spec_installed_entry(pa, perms),
                    t,
                ));
            } else {
                assert(i2 != index);
                assert(spec_translate(*self, self.spec_level(), va2) == spec_translate(
                    pre,
                    pre.spec_level(),
                    va2,
                ));
            }
        }
    }

    /// Installing a fresh chain of subtables behind a previously invalid
    /// entry translates the matching addresses through the new leaf, and
    /// leaves every other address failing exactly as before.
    proof fn lemma_set_map_fresh_chain(
        &self,
        pre: Sv39PageTable,
        va: u64,
        pa: u64,
        target: u8,
        perms: PagePermissions,
        index: int,
    )
        requires
            pre.wf(),
            target < pre.spec_level(),
            index == spec_index_at(va, pre.spec_level()),
            !pre.spec_entries()[index].valid,
            self.spec_level() == pre.spec_level(),
            self.spec_entries().len() == NUM_ENTRIES,
            self.spec_subtables().len() == NUM_ENTRIES,
            forall|i: int|
                0 <= i < NUM_ENTRIES && i != index ==> #[trigger] self.spec_entries()[i]
                    == pre.spec_entries()[i],
            forall|i: int|
                0 <= i < NUM_ENTRIES && i != index ==> #[trigger] self.spec_subtables()[i]
                    == pre.spec_subtables()[i],
            self.spec_entries()[index].valid,
            self.spec_entries()[index].spec_is_pointer(),
            self.spec_subtables()[index] is Some,
            ({
                let child = *self.spec_subtables()[index]->Some_0;
                &&& child.spec_level() == pre.spec_level() - 1
                &&& forall|va2: u64|
                    spec_upper_bits_ok(va2) ==> if spec_va_span_matches(
                        va2,
                        va,
                        target as int,
                        pre.spec_level() - 1,
                    ) {
                        #[trigger] spec_translate(child, pre.spec_level() - 1, va2) == Ok::<
                            u64,
                            VirtualAddressTranslationError,
                        >(spec_leaf_address(spec_installed_entry(pa, perms), target as int, va2))
                    } else {
                        !(spec_translate(child, pre.spec_level() - 1, va2) is Ok)
                    }
            }),
        ensures
            forall|va2: u64|
                spec_upper_bits_ok(va2) ==> if spec_va_span_matches(
                    va2,
                    va,
                    target as int,
                    pre.spec_level(),
                ) {
                    #[trigger] spec_translate(*self, self.spec_level(), va2) == Ok::<
                        u64,
                        VirtualAddressTranslationError,
                    >(spec_leaf_address(spec_installed_entry(pa, perms), target as int, va2))
                } else {
                    spec_same_ok(
                        spec_translate(*self, self.spec_level(), va2),
                        spec_translate(pre, pre.spec_level(), va2),
                    )
                },
    {
        let t = target as int;
        let lvl = pre.spec_level();
        let child = *self.spec_subtables()[index]->Some_0;
        assert forall|va2: u64| spec_upper_bits_ok(va2) implies (if spec_va_span_matches(
            va2,
            va,
            t,
            lvl,
        ) {
            spec_translate(*self, self.spec_level(), va2) == Ok::<
                u64,
                VirtualAddressTranslationError,
            >(spec_leaf_address(spec_installed_entry(pa, perms), t, va2))
        } else {
            spec_same_ok(
                spec_translate(*self, self.spec_level(), va2),
                spec_translate(pre, pre.spec_level(), va2),
            )
        }) by {
            let i2 = spec_index_at(va2, lvl);
            lemma_index_bound(va2, lvl);
            if i2 == index {
                assert(spec_translate(*self, lvl, va2) == spec_translate(child, lvl - 1, va2));
                assert(!(spec_translate(pre, lvl, va2) is Ok));
                if spec_va_span_matches(va2, va, t, lvl) {
                    lemma_span_step(va2, va, target as u64, lvl as u64);
                } else {
                    // Same slot here but diverging below: the chain below
                    // cannot match either, so the child translates
                    // nothing, exactly as the invalid entry did.
                    if spec_va_span_matches(va2, va, t, lvl - 1) {
                        lemma_span_gives_index(va2, va, target as u64, (lvl - 1) as u64);
                        lemma_span_recover(va2, va, target as u64, lvl as u64);
                        assert(false);
                    }
                }
            } else {
                if spec_va_span_matches(va2, va, t, lvl) {
                    lemma_span_gives_index(va2, va, target as u64, lvl as u64);
                    assert(false);
                }
                assert(spec_translate(*self, lvl, va2) == spec_translate(pre, lvl, va2));
            }
        }
    }

    /// Descending into an existing subtable: its outcome is the table's,
    /// the matching addresses translate through the new leaf on success,
    /// and every other address translates as before.
    proof fn lemma_set_map_descend(
        &self,
        pre: Sv39PageTable,
        va: u64,
        pa: u64,
        target: u8,
        perms: PagePermissions,
        index: int,
        outcome: Result<(), VirtualAddressSetMappingError>,
    )
        requires
            pre.wf(),
            target < pre.spec_level(),
            index == spec_index_at(va, pre.spec_level()),
            pre.spec_entries()[index].valid,
            pre.spec_entries()[index].spec_is_pointer(),
            self.spec_level() == pre.spec_level(),
            self.spec_entries() == pre.spec_entries(),
            self.spec_subtables().len() == NUM_ENTRIES,
            forall|i: int|
                0 <= i < NUM_ENTRIES && i != index ==> #[trigger] self.spec_subtables()[i]
                    == pre.spec_subtables()[i],
            self.spec_subtables()[index] is Some,
            pre.spec_subtables()[index] is Some,
            ({
                let child_pre = *pre.spec_subtables()[index]->Some_0;
                let child = *self.spec_subtables()[index]->Some_0;
                &&& child.spec_level() == pre.spec_level() - 1
                &&& outcome == spec_set_map_outcome(child_pre, pre.spec_level() - 1, va, target as int)
                &&& (outcome is Err ==> forall|va2: u64|
                    #[trigger] spec_translate(child, pre.spec_level() - 1, va2) == spec_translate(
                        child_pre,
                        pre.spec_level() - 1,
                        va2,
                    ))
                &&& (outcome is Ok ==> forall|va2: u64|
                    spec_upper_bits_ok(va2) ==> if spec_va_span_matches(
                        va2,
                        va,
                        target as int,
                        pre.spec_level() - 1,
                    ) {
                        #[trigger] spec_translate(child, pre.spec_level() - 1, va2) == Ok::<
                            u64,
                            VirtualAddressTranslationError,
                        >(spec_leaf_address(spec_installed_entry(pa, perms), target as int, va2))
                    } else {
                        spec_same_ok(
                            spec_translate(child, pre.spec_level() - 1, va2),
                            spec_translate(child_pre, pre.spec_level() - 1, va2),
                        )
                    })
            }),
        ensures
            outcome == spec_set_map_outcome(pre, pre.spec_level(), va, target as int),
            outcome is Err ==> forall|va2: u64|
                #[trigger] spec_translate(*self, self.spec_level(), va2) == spec_translate(
                    pre,
                    pre.spec_level(),
                    va2,
                ),
            outcome is Ok ==> forall|va2: u64|
                spec_upper_bits_ok(va2) ==> if spec_va_span_matches(
                    va2,
                    va,
                    target as int,
                    pre.spec_level(),
                ) {
                    #[trigger] spec_translate(*self, self.spec_level(), va2) == Ok::<
                        u64,
                        VirtualAddressTranslationError,
                    >(spec_leaf_address(spec_installed_entry(pa, perms), target as int, va2))
                } else {
                    spec_same_ok(
                        spec_translate(*self, self.spec_level(), va2),
                        spec_translate(pre, pre.spec_level(), va2),
                    )
                },
    {
        let t = target as int;
        let lvl = pre.spec_level();
        let child_pre = *pre.spec_subtables()[index]->Some_0;
        let child = *self.spec_subtables()[index]->Some_0;
        if outcome is Err {
            assert forall|va2: u64| #[trigger] spec_translate(*self, self.spec_level(), va2)
                == spec_translate(pre, pre.spec_level(), va2) by {
                if spec_upper_bits_ok(va2) {
                    let i2 = spec_index_at(va2, lvl);
                    lemma_index_bound(va2, lvl);
                    if i2 == index {
                        assert(spec_translate(*self, lvl, va2) == spec_translate(
                            child,
                            lvl - 1,
                            va2,
                        ));
                        assert(spec_translate(pre, lvl, va2) == spec_translate(
                            child_pre,
                            lvl - 1,
                            va2,
                        ));
                    } else {
                        assert(spec_translate(*self, lvl, va2) == spec_translate(pre, lvl, va2));
                    }
                }
            }
        } else {
            assert forall|va2: u64| spec_upper_bits_ok(va2) implies (if spec_va_span_matches(
                va2,
                va,
                t,
                lvl,
            ) {
                spec_translate(*self, self.spec_level(), va2) == Ok::<
                    u64,
                    VirtualAddressTranslationError,
                >(spec_leaf_address(spec_installed_entry(pa, perms), t, va2))
            } else {
                spec_same_ok(
                    spec_translate(*self, self.spec_level(), va2),
                    spec_translate(pre, pre.spec_level(), va2),
                )
            }) by {
                let i2 = spec_index_at(va2, lvl);
                lemma_index_bound(va2, lvl);
                if i2 == index {
                    assert(spec_translate(*self, lvl, va2) == spec_translate(
                        child,
                        lvl - 1,
                        va2,
                    ));
                    assert(spec_translate(pre, lvl, va2) == spec_translate(
                        child_pre,
                        lvl - 1,
                        va2,
                    ));
                    if spec_va_span_matches(va2, va, t, lvl) {
                        lemma_span_step(va2, va, target as u64, lvl as u64);
                    } else {
                        if spec_va_span_matches(va2, va, t, lvl - 1) {
                            lemma_span_recover(va2, va, target as u64, lvl as u64);
                            assert(false);
                        }
                    }
                } else {
                    if spec_va_span_matches(va2, va, t, lvl) {
                        lemma_span_gives_index(va2, va, target as u64, lvl as u64);
                        assert(false);
                    }
                    assert(spec_translate(*self, lvl, va2) == spec_translate(pre, lvl, va2));
                }
            }
        }
    }
}

impl Sv39PageTable {
    /// Sets this page table up to map virtual addresses to the exact
    /// same physical address: every entry becomes a leaf whose page
    /// number at this table's level is its own index, readable, writable
    /// and executable, with the accessed and dirty bits set. Meant for a
    /// table with no subtables installed yet, as overwriting a pointer
    /// entry would orphan its subtable.
    pub fn flat_map(&mut self)
        requires
            old(self).wf(),
            forall|i: int|
                0 <= i < NUM_ENTRIES ==> (#[trigger] old(self).spec_subtables()[i]) is None,
        ensures
            final(self).wf(),
            final(self).spec_level() == old(self).spec_level(),
            forall|i: int|
                0 <= i < NUM_ENTRIES ==> {
                    let e = #[trigger] final(self).spec_entries()[i];
                    &&& e.valid
                    &&& e.readable && e.writable && e.executable
                    &&& e.accessed && e.dirty
                    &&& e.reserved == old(self).spec_entries()[i].reserved
                    &&& spec_ppn_for_level(e, old(self).spec_level()) == Some(i as u64)
                },
    {
        let ghost pre = *self;
        let level = self.level();
        let mut index: usize = 0;
        while index < NUM_ENTRIES
            invariant
                pre.wf(),
                index <= NUM_ENTRIES,
                level == pre.spec_level(),
                self.spec_entries().len() == NUM_ENTRIES,
                self.spec_subtables() == pre.spec_subtables(),
                forall|i: int|
                    0 <= i < NUM_ENTRIES ==> (#[trigger] pre.spec_subtables()[i]) is None,
                forall|i: int|
                    index <= i < NUM_ENTRIES ==> #[trigger] self.spec_entries()[i]
                        == pre.spec_entries()[i],
                forall|i: int|
                    0 <= i < index ==> {
                        let e = #[trigger] self.spec_entries()[i];
                        &&& e.wf()
                        &&& e.valid
                        &&& e.readable && e.writable && e.executable
                        &&& e.accessed && e.dirty
                        &&& e.reserved == pre.spec_entries()[i].reserved
                        &&& spec_ppn_for_level(e, level as int) == Some(i as u64)
                    },
            decreases NUM_ENTRIES - index,
        {
            let mut entry = self.entries[index];
            entry.set_valid(false);
            let set_result = entry.set_physical_page_number_for_level(level, index as u64);
            proof {
                assert(set_result is Ok);
            }
            entry.apply_permissions(PagePermissions::ReadWriteExecute);
            entry.set_accessed();
            entry.set_dirty();
            entry.set_valid(true);
            self.entries.set(index, entry);
            index = index + 1;
        }
        proof {
            assert(self.wf_at(level as int));
        }
    }
}

/// Page-table round trip: the leaf that [`Sv39PageTable::set_map`]
/// installs for a mapping of `2^(12 + 9 * target)` bytes at an aligned
/// physical address `pa` below `2^44` translates an address to `pa` plus
/// the address's offset within the mapping.
pub proof fn lemma_installed_leaf_round_trip(pa: u64, perms: PagePermissions, target: u8, va2: u64)
    requires
        target <= 2,
        pa < 0x1000_0000_0000,
        pa & (((1u64 << (12 + 9 * (target as u64))) - 1) as u64) == 0,
    ensures
        spec_leaf_address(spec_installed_entry(pa, perms), target as int, va2) == pa | (va2 & (((
        1u64 << (12 + 9 * (target as u64))) - 1) as u64)),
        spec_leaf_address(spec_installed_entry(pa, perms), target as int, va2) == pa + (va2 & (((
        1u64 << (12 + 9 * (target as u64))) - 1) as u64)),
{
    let ppn = spec_installed_entry(pa, perms).ppn;
    assert(ppn == ((pa & 0xFFF_FFFF_FFFF) >> 12) as u64);
    if target == 0 {
        let high = ((ppn & 0x1FF) << 12) | (((ppn >> 9) & 0x1FF) << 21) | ((ppn >> 18) << 30);
        assert(high == pa && (high | (va2 & (((1u64 << 12u64) - 1) as u64))) == pa + (va2 & (((
        1u64 << 12u64) - 1) as u64))) by (bit_vector)
            requires
                ppn == ((pa & 0xFFF_FFFF_FFFF) >> 12) as u64,
                pa < 0x1000_0000_0000,
                pa & (((1u64 << 12u64) - 1) as u64) == 0,
                high == ((ppn & 0x1FF) << 12) | (((ppn >> 9) & 0x1FF) << 21) | ((ppn >> 18)
                    << 30),
        ;
    } else if target == 1 {
        let high = (((ppn >> 9) & 0x1FF) << 21) | ((ppn >> 18) << 30);
        assert(high == pa && (high | (va2 & (((1u64 << 21u64) - 1) as u64))) == pa + (va2 & (((
        1u64 << 21u64) - 1) as u64))) by (bit_vector)
            requires
                ppn == ((pa & 0xFFF_FFFF_FFFF) >> 12) as u64,
                pa < 0x1000_0000_0000,
                pa & (((1u64 << 21u64) - 1) as u64) == 0,
                high == (((ppn >> 9) & 0x1FF) << 21) | ((ppn >> 18) << 30),
        ;
    } else {
        let high = (ppn >> 18) << 30;
        assert(high == pa && (high | (va2 & (((1u64 << 30u64) - 1) as u64))) == pa + (va2 & (((
        1u64 << 30u64) - 1) as u64))) by (bit_vector)
            requires
                ppn == ((pa & 0xFFF_FFFF_FFFF) >> 12) as u64,
                pa < 0x1000_0000_0000,
                pa & (((1u64 << 30u64) - 1) as u64) == 0,
                high == (ppn >> 18) << 30,
        ;
    }
}

/// Page-table round trip: after a successful
/// [`Sv39PageTable::set_map`] of `va` to an aligned physical address
/// `pa` below `2^44` at `target`, any well-formed virtual address that
/// agrees with `va` in the bits above the mapping translates to `pa`
/// plus its offset within the mapping. The quantified hypothesis is
/// exactly what `set_map` ensures on success.
pub proof fn lemma_set_map_round_trip(
    post: Sv39PageTable,
    va: u64,
    pa: u64,
    target: u8,
    perms: PagePermissions,
    va2: u64,
)
    requires
        target <= 2,
        post.spec_level() == 2,
        forall|w: u64|
            spec_upper_bits_ok(w) ==> if spec_va_span_matches(w, va, target as int, 2) {
                #[trigger] spec_translate(post, post.spec_level(), w) == Ok::<
                    u64,
                    VirtualAddressTranslationError,
                >(spec_leaf_address(spec_installed_entry(pa, perms), target as int, w))
            } else {
                spec_same_ok(
                    spec_translate(post, post.spec_level(), w),
                    spec_translate(post, post.spec_level(), w),
                )
            },
        spec_upper_bits_ok(va2),
        va2 >> ((12 + 9 * target) as u64) == va >> ((12 + 9 * target) as u64),
        pa < 0x1000_0000_0000,
        pa & (((1u64 << (12 + 9 * (target as u64))) - 1) as u64) == 0,
    ensures
        spec_translate(post, 2, va2) == Ok::<u64, VirtualAddressTranslationError>(
            (pa + (va2 & (((1u64 << (12 + 9 * (target as u64))) - 1) as u64))) as u64,
        ),
{
    assert(spec_va_span_matches(va2, va, target as int, 2));
    assert(spec_translate(post, post.spec_level(), va2) == Ok::<
        u64,
        VirtualAddressTranslationError,
    >(spec_leaf_address(spec_installed_entry(pa, perms), target as int, va2)));
    lemma_installed_leaf_round_trip(pa, perms, target, va2);
    assert(spec_leaf_address(spec_installed_entry(pa, perms), target as int, va2) == pa + (va2 & (
    ((1u64 << (12 + 9 * (target as u64))) - 1) as u64)));
}

} // verus!
