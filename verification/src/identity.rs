//! Material identities: the tables that give each identity hash of the
//! renders a small code, and the exact lookup of a hash.
//!
//! A hash is the bit pattern of the 32-bit float that the render holds for a
//! material. Hashes are matched bit for bit, never as numbers.

use crate::error::CompositeError;
use crate::packing::{first_overflow, pack, pack_spec};
use vstd::prelude::*;

verus! {

/// The hash of a pixel that shows no material: the bits of `0.0`.
pub const NONE_HASH: u32 = 0;

/// The hash of the void material, which hides what lies behind it without
/// showing anything itself: the bits of `46.93645477294922`.
pub const VOID_HASH: u32 = 0x423bbeee;

/// What to do with a hash that a table does not hold.
#[derive(Clone, Copy, Debug, PartialEq, Eq, Hash, Structural)]
pub enum UnknownPolicy {
    /// Report the hash as an error.
    Fail,
    /// Use the code that the table gives to [`NONE_HASH`].
    DegradeToNone,
}

/// No hash is listed twice, and every code is at most 63.
pub open spec fn well_formed(table: Seq<(u8, u32)>) -> bool {
    &&& forall|i: int, j: int|
        0 <= i < j < table.len() ==> (#[trigger] table[i]).1 != (#[trigger] table[j]).1
    &&& forall|i: int| 0 <= i < table.len() ==> (#[trigger] table[i]).0 <= 63
}

/// The code of the first entry of `table` whose hash is `hash`.
pub open spec fn decode_spec(table: Seq<(u8, u32)>, hash: u32) -> Option<u8>
    decreases table.len(),
{
    if table.len() == 0 {
        None
    } else if table[0].1 == hash {
        Some(table[0].0)
    } else {
        decode_spec(table.drop_first(), hash)
    }
}

/// The code of `hash` under `policy`: the code that the table gives it;
/// where it gives none, the code of [`NONE_HASH`] if the policy degrades
/// and the table holds that hash, and no code otherwise.
pub open spec fn decode_identity_spec(
    table: Seq<(u8, u32)>,
    hash: u32,
    policy: UnknownPolicy,
) -> Option<u8> {
    match decode_spec(table, hash) {
        Some(code) => Some(code),
        None => match policy {
            UnknownPolicy::Fail => None,
            UnknownPolicy::DegradeToNone => decode_spec(table, NONE_HASH),
        },
    }
}

/// A hash decodes to a code exactly if the table holds it, and then to the
/// code of an entry with that hash.
pub proof fn lemma_decode_spec(table: Seq<(u8, u32)>, hash: u32)
    ensures
        match decode_spec(table, hash) {
            Some(code) => exists|i: int|
                0 <= i < table.len() && (#[trigger] table[i]).1 == hash && table[i].0 == code,
            None => forall|i: int| 0 <= i < table.len() ==> (#[trigger] table[i]).1 != hash,
        },
    decreases table.len(),
{
    if table.len() > 0 && table[0].1 != hash {
        let rest = table.drop_first();
        lemma_decode_spec(rest, hash);
        match decode_spec(rest, hash) {
            Some(code) => {
                let i = choose|i: int|
                    0 <= i < rest.len() && (#[trigger] rest[i]).1 == hash && rest[i].0 == code;
                assert(table[i + 1] == rest[i]);
            },
            None => {
                assert forall|i: int| 0 <= i < table.len() implies (#[trigger] table[i]).1
                    != hash by {
                    if i > 0 {
                        assert(table[i] == rest[i - 1]);
                    }
                }
            },
        }
    }
}

/// In a table that lists no hash twice, the hash of every entry decodes to
/// the code of that entry.
pub proof fn lemma_decode_entry(table: Seq<(u8, u32)>, i: int)
    requires
        well_formed(table),
        0 <= i < table.len(),
    ensures
        decode_spec(table, table[i].1) == Some(table[i].0),
{
    lemma_decode_spec(table, table[i].1);
}

/// A code that comes out of a well-formed table fits in six bits, under
/// either policy.
pub proof fn lemma_decoded_fits(table: Seq<(u8, u32)>, hash: u32, policy: UnknownPolicy)
    requires
        well_formed(table),
    ensures
        match decode_identity_spec(table, hash, policy) {
            Some(code) => code <= 63,
            None => true,
        },
{
    lemma_decode_spec(table, hash);
    lemma_decode_spec(table, NONE_HASH);
}

/// Looks `hash` up in `table`: the code of the first entry that holds
/// exactly these bits, or `None` where no entry does.
pub fn decode(table: &Vec<(u8, u32)>, hash: u32) -> (code: Option<u8>)
    ensures
        code == decode_spec(table@, hash),
{
    let mut i: usize = 0;
    proof {
        assert(table@.skip(0) =~= table@);
    }
    while i < table.len()
        invariant
            i <= table.len(),
            decode_spec(table@, hash) == decode_spec(table@.skip(i as int), hash),
        decreases table.len() - i,
    {
        proof {
            assert(table@.skip(i as int)[0] == table@[i as int]);
            assert(table@.skip(i as int).drop_first() =~= table@.skip(i + 1));
        }
        if table[i].1 == hash {
            return Some(table[i].0);
        }
        i += 1;
    }
    proof {
        assert(table@.skip(i as int).len() == 0);
    }
    None
}

/// Decodes `hash` under `policy`. A hash that the table holds gives its
/// code. One that it does not hold is an error under [`UnknownPolicy::Fail`];
/// under [`UnknownPolicy::DegradeToNone`] it gives the code of
/// [`NONE_HASH`], and is an error only if the table lacks that hash too.
pub fn decode_identity(table: &Vec<(u8, u32)>, hash: u32, policy: UnknownPolicy) -> (code: Result<
    u8,
    CompositeError,
>)
    ensures
        match decode_identity_spec(table@, hash, policy) {
            Some(c) => code == Ok::<u8, CompositeError>(c),
            None => code == Err::<u8, CompositeError>(CompositeError::UnknownIdentity(hash)),
        },
{
    match decode(table, hash) {
        Some(code) => Ok(code),
        None => match policy {
            UnknownPolicy::Fail => Err(CompositeError::UnknownIdentity(hash)),
            UnknownPolicy::DegradeToNone => match decode(table, NONE_HASH) {
                Some(code) => Ok(code),
                None => Err(CompositeError::UnknownIdentity(hash)),
            },
        },
    }
}

/// The three bytes that stand for the four ranked hashes of a pixel: each
/// hash decoded under `policy`, and the four codes packed. The first hash
/// that has no code is an error, and after that the first code above 63.
pub open spec fn pack_hashes_spec(
    table: Seq<(u8, u32)>,
    policy: UnknownPolicy,
    hashes: (u32, u32, u32, u32),
) -> Result<(u8, u8, u8), CompositeError> {
    match decode_identity_spec(table, hashes.0, policy) {
        None => Err(CompositeError::UnknownIdentity(hashes.0)),
        Some(c0) => match decode_identity_spec(table, hashes.1, policy) {
            None => Err(CompositeError::UnknownIdentity(hashes.1)),
            Some(c1) => match decode_identity_spec(table, hashes.2, policy) {
                None => Err(CompositeError::UnknownIdentity(hashes.2)),
                Some(c2) => match decode_identity_spec(table, hashes.3, policy) {
                    None => Err(CompositeError::UnknownIdentity(hashes.3)),
                    Some(c3) => match first_overflow(c0, c1, c2, c3) {
                        Some(code) => Err(CompositeError::PackingOverflow(code)),
                        None => Ok(pack_spec(c0, c1, c2, c3)),
                    },
                },
            },
        },
    }
}

/// Decodes the four ranked hashes of a pixel and packs their codes into
/// three bytes.
pub fn pack_hashes(table: &Vec<(u8, u32)>, policy: UnknownPolicy, hashes: (u32, u32, u32, u32)) -> (
    packed: Result<(u8, u8, u8), CompositeError>)
    ensures
        packed == pack_hashes_spec(table@, policy, hashes),
{
    let c0 = match decode_identity(table, hashes.0, policy) {
        Ok(code) => code,
        Err(error) => {
            return Err(error);
        },
    };
    let c1 = match decode_identity(table, hashes.1, policy) {
        Ok(code) => code,
        Err(error) => {
            return Err(error);
        },
    };
    let c2 = match decode_identity(table, hashes.2, policy) {
        Ok(code) => code,
        Err(error) => {
            return Err(error);
        },
    };
    let c3 = match decode_identity(table, hashes.3, policy) {
        Ok(code) => code,
        Err(error) => {
            return Err(error);
        },
    };
    pack(c0, c1, c2, c3)
}

/// With a well-formed table no code is ever too large to pack: the only
/// error is a hash that has no code.
pub proof fn lemma_pack_hashes_fits(
    table: Seq<(u8, u32)>,
    policy: UnknownPolicy,
    hashes: (u32, u32, u32, u32),
)
    requires
        well_formed(table),
    ensures
        match pack_hashes_spec(table, policy, hashes) {
            Ok(_) => true,
            Err(error) => error is UnknownIdentity,
        },
{
    lemma_decoded_fits(table, hashes.0, policy);
    lemma_decoded_fits(table, hashes.1, policy);
    lemma_decoded_fits(table, hashes.2, policy);
    lemma_decoded_fits(table, hashes.3, policy);
}

/// Under the degrading policy, a well-formed table that lists the hash of
/// no material gives every pixel an identity.
pub proof fn lemma_degrading_never_fails(table: Seq<(u8, u32)>, hashes: (u32, u32, u32, u32))
    requires
        well_formed(table),
        decode_spec(table, NONE_HASH).is_some(),
    ensures
        pack_hashes_spec(table, UnknownPolicy::DegradeToNone, hashes).is_ok(),
{
    lemma_decoded_fits(table, hashes.0, UnknownPolicy::DegradeToNone);
    lemma_decoded_fits(table, hashes.1, UnknownPolicy::DegradeToNone);
    lemma_decoded_fits(table, hashes.2, UnknownPolicy::DegradeToNone);
    lemma_decoded_fits(table, hashes.3, UnknownPolicy::DegradeToNone);
}

proof fn lemma_distinct_hashes(table: Seq<(u8, u32)>, i: int, j: int)
    requires
        0 <= i < j < table.len(),
        table == index_map_spec() || table == get_index_map_spec() || table
            == get_asset_map_spec(),
    ensures
        table[i].1 != table[j].1,
{
}

/// The identity table of the compositor: forty materials, with code 0 for
/// no material and code 1 for the void.
pub open spec fn index_map_spec() -> Seq<(u8, u32)> {
    seq![
        (0, 0x00000000), (1, 0x423bbeee), (2, 0xbd0f4f15), (3, 0x86c5d8c0),
        (4, 0xf109a675), (5, 0x39b9e817), (6, 0x74dd3398), (7, 0x8f520f50),
        (8, 0xfc0c0a35), (9, 0x34150985), (10, 0xf31ef7ff), (11, 0x1feaf0bc),
        (12, 0x67243af4), (13, 0x21631a8e), (14, 0x9a79c481), (15, 0x411cf424),
        (16, 0xb499b5cf), (17, 0xeab7bbdc), (18, 0x652c2d41), (19, 0xea546d8b),
        (20, 0xe00e3c8d), (21, 0xf91200f2), (22, 0x326254ad), (23, 0xbc68424e),
        (24, 0x37d195d6), (25, 0xb70a1d09), (26, 0x1e64a27c), (27, 0xac30807b),
        (28, 0x6b0220c1), (29, 0x2d7ae8eb), (30, 0xcca11eba), (31, 0x835cb840),
        (32, 0x60c791ff), (33, 0x80808f66), (34, 0x04998c09), (35, 0x8f5bbe80),
        (36, 0x8f6508e7), (37, 0x31494800), (38, 0x0cab703e), (39, 0x27299496),
    ]
}

/// The identity table of the compositor: forty materials, with code 0 for
/// no material and code 1 for the void.
pub fn index_map() -> (table: Vec<(u8, u32)>)
    ensures
        table@ == index_map_spec(),
        well_formed(table@),
{
    let table = vec![
        (0, 0x00000000), (1, 0x423bbeee), (2, 0xbd0f4f15), (3, 0x86c5d8c0),
        (4, 0xf109a675), (5, 0x39b9e817), (6, 0x74dd3398), (7, 0x8f520f50),
        (8, 0xfc0c0a35), (9, 0x34150985), (10, 0xf31ef7ff), (11, 0x1feaf0bc),
        (12, 0x67243af4), (13, 0x21631a8e), (14, 0x9a79c481), (15, 0x411cf424),
        (16, 0xb499b5cf), (17, 0xeab7bbdc), (18, 0x652c2d41), (19, 0xea546d8b),
        (20, 0xe00e3c8d), (21, 0xf91200f2), (22, 0x326254ad), (23, 0xbc68424e),
        (24, 0x37d195d6), (25, 0xb70a1d09), (26, 0x1e64a27c), (27, 0xac30807b),
        (28, 0x6b0220c1), (29, 0x2d7ae8eb), (30, 0xcca11eba), (31, 0x835cb840),
        (32, 0x60c791ff), (33, 0x80808f66), (34, 0x04998c09), (35, 0x8f5bbe80),
        (36, 0x8f6508e7), (37, 0x31494800), (38, 0x0cab703e), (39, 0x27299496),
    ];
    proof {
        assert(table@ =~= index_map_spec());
        lemma_index_map_well_formed();
    }
    table
}

/// The table gives every hash one code, and every code fits in six bits.
pub proof fn lemma_index_map_well_formed()
    ensures
        well_formed(index_map_spec()),
{
    let table = index_map_spec();
    assert forall|i: int, j: int| 0 <= i < j < table.len() implies (#[trigger] table[i]).1 != (
    #[trigger] table[j]).1 by {
        lemma_distinct_hashes(table, i, j);
    }
}

/// The identity table of the matte pass: thirty-two materials, with code 0
/// for the void and code 31 for no material.
pub open spec fn get_index_map_spec() -> Seq<(u8, u32)> {
    seq![
        (0, 0x423bbeee), (1, 0xbd0f4f15), (2, 0x86c5d8c0), (3, 0xf109a675),
        (4, 0x39b9e817), (5, 0x82901b2d), (6, 0x74dd3398), (7, 0x8f520f50),
        (8, 0xfc0c0a35), (9, 0x34150985), (10, 0xf31ef7ff), (11, 0x1feaf0bc),
        (12, 0x67243af4), (13, 0x21631a8e), (14, 0x9a79c481), (15, 0x411cf424),
        (16, 0xb499b5cf), (17, 0xeab7bbdc), (18, 0x652c2d41), (19, 0xea546d8b),
        (20, 0xe00e3c8d), (21, 0xf91200f2), (22, 0x326254ad), (23, 0xbc68424e),
        (24, 0x37d195d6), (25, 0xb70a1d09), (26, 0x1e64a27c), (27, 0xac30807b),
        (28, 0x6b0220c1), (29, 0x2d7ae8eb), (30, 0xcca11eba), (31, 0x00000000),
    ]
}

/// The identity table of the matte pass: thirty-two materials, with code 0
/// for the void and code 31 for no material.
pub fn get_index_map() -> (table: Vec<(u8, u32)>)
    ensures
        table@ == get_index_map_spec(),
        well_formed(table@),
{
    let table = vec![
        (0, 0x423bbeee), (1, 0xbd0f4f15), (2, 0x86c5d8c0), (3, 0xf109a675),
        (4, 0x39b9e817), (5, 0x82901b2d), (6, 0x74dd3398), (7, 0x8f520f50),
        (8, 0xfc0c0a35), (9, 0x34150985), (10, 0xf31ef7ff), (11, 0x1feaf0bc),
        (12, 0x67243af4), (13, 0x21631a8e), (14, 0x9a79c481), (15, 0x411cf424),
        (16, 0xb499b5cf), (17, 0xeab7bbdc), (18, 0x652c2d41), (19, 0xea546d8b),
        (20, 0xe00e3c8d), (21, 0xf91200f2), (22, 0x326254ad), (23, 0xbc68424e),
        (24, 0x37d195d6), (25, 0xb70a1d09), (26, 0x1e64a27c), (27, 0xac30807b),
        (28, 0x6b0220c1), (29, 0x2d7ae8eb), (30, 0xcca11eba), (31, 0x00000000),
    ];
    proof {
        assert(table@ =~= get_index_map_spec());
        lemma_get_index_map_well_formed();
    }
    table
}

/// The table gives every hash one code, and every code fits in six bits.
pub proof fn lemma_get_index_map_well_formed()
    ensures
        well_formed(get_index_map_spec()),
{
    let table = get_index_map_spec();
    assert forall|i: int, j: int| 0 <= i < j < table.len() implies (#[trigger] table[i]).1 != (
    #[trigger] table[j]).1 by {
        lemma_distinct_hashes(table, i, j);
    }
}

/// The identity table of the cryptomatte pass: thirty-two hashes, where no
/// material and the void share code 0.
pub open spec fn get_asset_map_spec() -> Seq<(u8, u32)> {
    seq![
        (0, 0x00000000), (0, 0x423bbeee), (1, 0xbd0f4f15), (2, 0x86c5d8c0),
        (3, 0xf109a675), (4, 0x39b9e817), (5, 0x82901b2d), (6, 0x74dd3398),
        (7, 0x8f520f50), (8, 0xfc0c0a35), (9, 0x34150985), (10, 0xf31ef7ff),
        (11, 0x1feaf0bc), (12, 0x67243af4), (13, 0x21631a8e), (14, 0x9a79c481),
        (15, 0x411cf424), (16, 0xb499b5cf), (17, 0xeab7bbdc), (18, 0x652c2d41),
        (19, 0xea546d8b), (20, 0xe00e3c8d), (21, 0xf91200f2), (22, 0x326254ad),
        (23, 0xbc68424e), (24, 0x37d195d6), (25, 0xb70a1d09), (26, 0x1e64a27c),
        (27, 0xac30807b), (28, 0x6b0220c1), (29, 0x2d7ae8eb), (30, 0xcca11eba),
    ]
}

/// The identity table of the cryptomatte pass: thirty-two hashes, where no
/// material and the void share code 0.
pub fn get_asset_map() -> (table: Vec<(u8, u32)>)
    ensures
        table@ == get_asset_map_spec(),
        well_formed(table@),
{
    let table = vec![
        (0, 0x00000000), (0, 0x423bbeee), (1, 0xbd0f4f15), (2, 0x86c5d8c0),
        (3, 0xf109a675), (4, 0x39b9e817), (5, 0x82901b2d), (6, 0x74dd3398),
        (7, 0x8f520f50), (8, 0xfc0c0a35), (9, 0x34150985), (10, 0xf31ef7ff),
        (11, 0x1feaf0bc), (12, 0x67243af4), (13, 0x21631a8e), (14, 0x9a79c481),
        (15, 0x411cf424), (16, 0xb499b5cf), (17, 0xeab7bbdc), (18, 0x652c2d41),
        (19, 0xea546d8b), (20, 0xe00e3c8d), (21, 0xf91200f2), (22, 0x326254ad),
        (23, 0xbc68424e), (24, 0x37d195d6), (25, 0xb70a1d09), (26, 0x1e64a27c),
        (27, 0xac30807b), (28, 0x6b0220c1), (29, 0x2d7ae8eb), (30, 0xcca11eba),
    ];
    proof {
        assert(table@ =~= get_asset_map_spec());
        lemma_get_asset_map_well_formed();
    }
    table
}

/// The table gives every hash one code, and every code fits in six bits.
pub proof fn lemma_get_asset_map_well_formed()
    ensures
        well_formed(get_asset_map_spec()),
{
    let table = get_asset_map_spec();
    assert forall|i: int, j: int| 0 <= i < j < table.len() implies (#[trigger] table[i]).1 != (
    #[trigger] table[j]).1 by {
        lemma_distinct_hashes(table, i, j);
    }
}

} // verus!
