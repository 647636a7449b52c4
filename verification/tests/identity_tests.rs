use composite::error::CompositeError;
use composite::identity::{
    decode, decode_identity, get_asset_map, get_index_map, index_map, pack_hashes, UnknownPolicy,
    NONE_HASH, VOID_HASH,
};

#[test]
fn reserved_hashes_are_the_bits_of_their_floats() {
    assert_eq!(NONE_HASH, 0.0_f32.to_bits());
    assert_eq!(VOID_HASH, 46.93645477294922_f32.to_bits());
}

#[test]
fn index_map_lists_forty_materials() {
    let table = index_map();
    assert_eq!(table.len(), 40);
    for (i, entry) in table.iter().enumerate() {
        assert_eq!(entry.0 as usize, i);
    }
    assert_eq!(table[0], (0, 0.0_f32.to_bits()));
    assert_eq!(table[1], (1, 46.93645477294922_f32.to_bits()));
    assert_eq!(table[2], (2, (-0.03498752787709236_f32).to_bits()));
    assert_eq!(table[15], (15, 9.80960464477539_f32.to_bits()));
    assert_eq!(table[30], (30, (-84473296.0_f32).to_bits()));
    assert_eq!(table[39], (39, 2.353400999332558e-15_f32.to_bits()));
}

#[test]
fn tables_list_no_hash_twice_and_fit_six_bits() {
    for table in [index_map(), get_index_map(), get_asset_map()] {
        for i in 0..table.len() {
            assert!(table[i].0 <= 63);
            for j in (i + 1)..table.len() {
                assert_ne!(table[i].1, table[j].1);
            }
        }
    }
}

#[test]
fn every_entry_decodes_to_its_code() {
    for table in [index_map(), get_index_map(), get_asset_map()] {
        for entry in &table {
            assert_eq!(decode(&table, entry.1), Some(entry.0));
        }
    }
}

#[test]
fn matte_table_has_the_void_first_and_none_last() {
    let table = get_index_map();
    assert_eq!(table.len(), 32);
    assert_eq!(decode(&table, VOID_HASH), Some(0));
    assert_eq!(decode(&table, NONE_HASH), Some(31));
    assert_eq!(decode(&table, (-2.1174496448267268e-37_f32).to_bits()), Some(5));
    assert_eq!(decode(&table, 0.00035458870115689933_f32.to_bits()), Some(4));
}

#[test]
fn asset_table_gives_none_and_void_code_zero() {
    let table = get_asset_map();
    assert_eq!(table.len(), 32);
    assert_eq!(decode(&table, VOID_HASH), Some(0));
    assert_eq!(decode(&table, NONE_HASH), Some(0));
    assert_eq!(decode(&table, (-0.03498752787709236_f32).to_bits()), Some(1));
    assert_eq!(decode(&table, (-84473296.0_f32).to_bits()), Some(30));
}

#[test]
fn lookup_is_by_bits_not_by_number() {
    let table = index_map();
    // -0.0 equals 0.0 as a number, but has other bits
    assert_eq!(decode(&table, (-0.0_f32).to_bits()), None);
    assert_eq!(decode(&table, 9.80960464477539_f32.to_bits() + 1), None);
    assert_eq!(decode(&table, 1.0_f32.to_bits()), None);
}

#[test]
fn unknown_hash_fails_or_degrades_by_policy() {
    let table = index_map();
    let unknown = 1.0_f32.to_bits();
    assert_eq!(
        decode_identity(&table, unknown, UnknownPolicy::Fail),
        Err(CompositeError::UnknownIdentity(unknown))
    );
    assert_eq!(decode_identity(&table, unknown, UnknownPolicy::DegradeToNone), Ok(0));
    assert_eq!(decode_identity(&get_index_map(), unknown, UnknownPolicy::DegradeToNone), Ok(31));
    assert_eq!(decode_identity(&table, VOID_HASH, UnknownPolicy::Fail), Ok(1));
    assert_eq!(decode_identity(&table, VOID_HASH, UnknownPolicy::DegradeToNone), Ok(1));
    // a table without the hash of no material cannot degrade
    let bare = vec![(7u8, 0x1234_5678u32)];
    assert_eq!(
        decode_identity(&bare, unknown, UnknownPolicy::DegradeToNone),
        Err(CompositeError::UnknownIdentity(unknown))
    );
    assert_eq!(decode_identity(&bare, 0x1234_5678, UnknownPolicy::Fail), Ok(7));
}

#[test]
fn first_matching_entry_wins_in_a_table_with_repeats() {
    let table = vec![(3u8, 10u32), (4, 10), (5, 11)];
    assert_eq!(decode(&table, 10), Some(3));
    assert_eq!(decode(&table, 11), Some(5));
    assert_eq!(decode(&Vec::new(), 11), None);
}

#[test]
fn pack_hashes_decodes_then_packs() {
    let table = index_map();
    let h = |code: usize| table[code].1;
    assert_eq!(
        pack_hashes(&table, UnknownPolicy::Fail, (h(1), h(2), h(3), h(4))),
        Ok((0b1000_0001, 0b0011_0000, 0b0001_0000))
    );
    assert_eq!(
        pack_hashes(&table, UnknownPolicy::Fail, (h(39), h(0), h(0), h(0))),
        Ok((39, 0, 0))
    );
    let unknown = 123.0_f32.to_bits();
    assert_eq!(
        pack_hashes(&table, UnknownPolicy::Fail, (h(1), unknown, 77, h(4))),
        Err(CompositeError::UnknownIdentity(unknown))
    );
    assert_eq!(
        pack_hashes(&table, UnknownPolicy::DegradeToNone, (h(1), unknown, 77, h(4))),
        Ok((1, 0, 0b0001_0000))
    );
}

#[test]
fn pack_hashes_reports_a_code_that_does_not_fit() {
    let table = vec![(0u8, 0u32), (64, 5), (9, 6)];
    assert_eq!(
        pack_hashes(&table, UnknownPolicy::Fail, (6, 5, 0, 0)),
        Err(CompositeError::PackingOverflow(64))
    );
    // an unknown hash is reported before a code that does not fit
    assert_eq!(
        pack_hashes(&table, UnknownPolicy::Fail, (5, 6, 0, 99)),
        Err(CompositeError::UnknownIdentity(99))
    );
    assert_eq!(pack_hashes(&table, UnknownPolicy::Fail, (6, 6, 0, 0)), Ok((9 | (1 << 6), 2, 0)));
}
