//! Tests for the Sv39 page-table engine.

use eepyos::mmu::{
    PagePermissions, Sv39PageTable, Sv39PageTableEntry, VirtualAddressSetMappingError,
    VirtualAddressTranslationError,
};

#[test]
fn page_table_map_and_lookup() {
    let mut table = Sv39PageTable::new();
    assert_eq!(table.level(), 2);
    table
        .set_map(0x2000_0000, 0x4000_0000, 1, PagePermissions::ReadWriteExecute)
        .unwrap();
    // Addresses within the mapped 2 MiB superpage translate with their
    // offset carried over.
    assert_eq!(table.map(0x2000_0FAB), Ok(0x4000_0FAB));
    assert_eq!(table.map(0x2010_0000), Ok(0x4010_0000));
    // The next superpage is unmapped.
    assert!(matches!(
        table.map(0x2020_0000),
        Err(VirtualAddressTranslationError::InvalidEntry(_))
    ));
}

#[test]
fn page_table_guards_upper_bits() {
    let table = Sv39PageTable::new();
    // Bit 38 clear but bit 39 set: the sign extension is broken.
    assert_eq!(
        table.map(0x0000_0080_0000_0000),
        Err(VirtualAddressTranslationError::UpperBitsMalformed)
    );
    // Bit 38 set with the upper bits clear is just as malformed.
    assert_eq!(
        table.map(0x0000_0040_0000_0000),
        Err(VirtualAddressTranslationError::UpperBitsMalformed)
    );
    // A fully sign-extended address is fine (and unmapped here).
    assert!(matches!(
        table.map(0xFFFF_FFC0_0000_0000),
        Err(VirtualAddressTranslationError::InvalidEntry(_))
    ));
}

#[test]
fn page_table_level_zero_mapping() {
    let mut table = Sv39PageTable::new();
    table
        .set_map(0x2000_0000, 0x4000_0000, 0, PagePermissions::ReadWrite)
        .unwrap();
    // Two subtables were created down to level zero; only the one page
    // is mapped.
    assert_eq!(table.map(0x2000_0ABC), Ok(0x4000_0ABC));
    assert!(matches!(
        table.map(0x2000_1000),
        Err(VirtualAddressTranslationError::InvalidEntry(_))
    ));
}

#[test]
fn page_table_rejects_conflicts() {
    let mut table = Sv39PageTable::new();
    table
        .set_map(0x2000_0000, 0x4000_0000, 1, PagePermissions::ReadWrite)
        .unwrap();
    // The slot is taken by a leaf.
    assert!(matches!(
        table.set_map(0x2000_0000, 0x5000_0000, 1, PagePermissions::ReadWrite),
        Err(VirtualAddressSetMappingError::AddressAlreadyInUse(_))
    ));
    // Mapping the whole gigapage would overwrite the live pointer to
    // the subtable holding the 2 MiB mapping.
    assert!(matches!(
        table.set_map(0x2000_0000, 0x5000_0000, 2, PagePermissions::ReadWrite),
        Err(VirtualAddressSetMappingError::MappingIsActivePointer(_))
    ));
    // A level beyond the root's is impossible.
    assert!(matches!(
        table.set_map(0x2000_0000, 0x5000_0000, 3, PagePermissions::ReadWrite),
        Err(VirtualAddressSetMappingError::ImpossibleLevel(3))
    ));
}

#[test]
fn page_table_flat_map_is_identity() {
    let mut table = Sv39PageTable::new();
    table.flat_map();
    // Every gigapage maps to itself.
    assert_eq!(table.map(0x0000_0000), Ok(0x0000_0000));
    assert_eq!(table.map(0x4000_1234), Ok(0x4000_1234));
    assert_eq!(table.map(0x1F_FFFF_FFFF), Ok(0x1F_FFFF_FFFF));
}

#[test]
fn page_table_tracks_references() {
    let mut table = Sv39PageTable::new();
    // A fresh root is kept alive by its owner's parent reference.
    assert_eq!(table.reference_count(), 0);
    assert!(table.has_living_parent_reference());
    assert!(!table.has_mut_reference());
    table.acquire_reference_lock();
    assert_eq!(table.reference_count(), 1);
    // With one reference (the handle itself), a mutable claim succeeds,
    // and a second claim fails.
    assert!(table.claim_mut_reference());
    assert!(table.has_mut_reference());
    assert!(!table.claim_mut_reference());
    table.release_mut_reference();
    table.release_reference_handle();
    assert_eq!(table.reference_count(), 0);
}

#[test]
fn page_table_reference_count_ripples() {
    let mut table = Sv39PageTable::new();
    table.acquire_reference_lock();
    // Push the count across the two-bit field boundaries and back.
    for _ in 0..6 {
        table.increment_reference_count();
    }
    assert_eq!(table.reference_count(), 7);
    for _ in 0..5 {
        table.decrement_reference_count();
    }
    assert_eq!(table.reference_count(), 2);
    table.decrement_reference_count();
    table.release_reference_handle();
    assert_eq!(table.reference_count(), 0);
}

#[test]
fn entry_encodes_its_fields() {
    let mut entry = Sv39PageTableEntry::new();
    assert_eq!(entry.to_bits(), 0);
    entry.set_valid(true);
    entry.set_readable(true);
    entry.set_writable(true);
    entry.set_accessed();
    entry.set_physical_page_number(0x1234).unwrap();
    assert_eq!(entry.to_bits(), 1 + 2 + 4 + 64 + 0x1234 * 1024);
    assert!(!entry.is_pointer());
    entry.set_readable(false);
    entry.set_writable(false);
    assert!(entry.is_pointer());
}

#[test]
fn entry_splits_page_number_by_level() {
    let mut entry = Sv39PageTableEntry::new();
    entry
        .set_physical_page_number((3 << 18) | (2 << 9) | 1)
        .unwrap();
    assert_eq!(entry.get_physical_page_number_for_level(0), Some(1));
    assert_eq!(entry.get_physical_page_number_for_level(1), Some(2));
    assert_eq!(entry.get_physical_page_number_for_level(2), Some(3));
    assert_eq!(entry.get_physical_page_number_for_level(3), None);
    entry.set_physical_page_number_for_level(1, 0x1FF).unwrap();
    assert_eq!(entry.get_physical_page_number_for_level(1), Some(0x1FF));
    assert_eq!(entry.get_physical_page_number_for_level(0), Some(1));
    assert_eq!(entry.get_physical_page_number_for_level(2), Some(3));
    assert!(entry.set_physical_page_number_for_level(0, 0x200).is_err());
}

#[test]
fn entry_reserved_bits_are_two_wide() {
    let mut entry = Sv39PageTableEntry::new();
    assert!(entry.set_reserved(3).is_ok());
    assert_eq!(entry.get_reserved(), 3);
    assert!(entry.set_reserved(4).is_err());
    assert_eq!(entry.get_reserved(), 3);
    assert_eq!(entry.atomic_swap_reserved(3, 1), Ok(1));
    assert_eq!(entry.atomic_swap_reserved(3, 2), Err(1));
    assert_eq!(entry.get_reserved(), 1);
}

#[test]
fn permissions_match_their_bits() {
    assert!(PagePermissions::ReadOnly.read_allowed());
    assert!(!PagePermissions::ReadOnly.write_allowed());
    assert!(!PagePermissions::ReadOnly.execute_allowed());
    assert!(!PagePermissions::ExecuteOnly.read_allowed());
    assert!(PagePermissions::ExecuteOnly.execute_allowed());
    assert!(PagePermissions::ReadWrite.write_allowed());
    assert!(PagePermissions::ReadExecute.execute_allowed());
    assert!(PagePermissions::ReadWriteExecute.read_allowed());
    assert!(PagePermissions::ReadWriteExecute.write_allowed());
    assert!(PagePermissions::ReadWriteExecute.execute_allowed());
}
