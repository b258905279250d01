use vstd::prelude::*;
use vstd::string::StrSliceExecFns;
use crate::codec::spec_enc_u64;
use vstd::bytes::u64_to_le_bytes;
use vstd::utf8::{encode_utf8, encode_utf8_decode_utf8, is_ascii_chars, is_ascii_chars_encode_utf8};

verus! {

#[verifier::external_type_specification]
#[verifier::external_body]
pub struct ExDb(sled::Db);

#[verifier::external_type_specification]
#[verifier::external_body]
pub struct ExSledError(sled::Error);

/// The key-value pairs that a sled store currently holds.
pub uninterp spec fn db_view(db: sled::Db) -> Map<Seq<u8>, Seq<u8>>;

/// Relies on sled::open: opens or creates the store at `path`. What it
/// holds is whatever the directory holds, so nothing is said of the
/// contents.
#[verifier::external_body]
pub(crate) fn db_open(path: &str) -> Result<sled::Db, sled::Error> {
    sled::open(path)
}

/// Relies on sled::Config::temporary and Config::open: a fresh store
/// backed by a directory of its own that is removed on drop; it starts
/// with no keys.
#[verifier::external_body]
pub(crate) fn db_open_temporary() -> (r: Result<sled::Db, sled::Error>)
    ensures
        match r {
            Ok(db) => db_view(db) == Map::<Seq<u8>, Seq<u8>>::empty(),
            Err(_) => true,
        },
{
    sled::Config::new().temporary(true).open()
}

/// Relies on sled::Tree::get: the value stored under `key`, if any.
#[verifier::external_body]
pub(crate) fn db_get(db: &sled::Db, key: &[u8]) -> (r: Result<Option<Vec<u8>>, sled::Error>)
    ensures
        match r {
            Ok(Some(v)) => db_view(*db).contains_key(key@) && v@ == db_view(*db)[key@],
            Ok(None) => !db_view(*db).contains_key(key@),
            Err(_) => true,
        },
{
    match db.get(key) {
        Ok(Some(v)) => Ok(Some(v.to_vec())),
        Ok(None) => Ok(None),
        Err(e) => Err(e),
    }
}

/// Relies on sled::Tree::insert: maps `key` to `value`, replacing any
/// previous value. A failed write may or may not have been applied, but it
/// targets this key alone: no other key is touched either way.
#[verifier::external_body]
pub(crate) fn db_insert(db: &mut sled::Db, key: &[u8], value: Vec<u8>) -> (r: Result<
    (),
    sled::Error,
>)
    ensures
        match r {
            Ok(_) => db_view(*final(db)) == db_view(*old(db)).insert(key@, value@),
            Err(_) => db_view(*final(db)) == db_view(*old(db)) || db_view(*final(db)) == db_view(
                *old(db),
            ).insert(key@, value@),
        },
{
    match db.insert(key, value) {
        Ok(_) => Ok(()),
        Err(e) => Err(e),
    }
}

/// Relies on sled::Tree::flush: forces pending writes to disk. It changes
/// no stored pair, whether it succeeds or fails.
#[verifier::external_body]
pub(crate) fn db_flush(db: &mut sled::Db) -> (r: Result<(), sled::Error>)
    ensures
        db_view(*final(db)) == db_view(*old(db)),
{
    match db.flush() {
        Ok(_) => Ok(()),
        Err(e) => Err(e),
    }
}

/// The store key of the block at `index`: the `block:` keyspace.
pub open spec fn spec_block_key(index: u64) -> Seq<u8> {
    encode_utf8("block:"@) + spec_enc_u64(index)
}

pub(crate) fn block_key(index: u64) -> (r: Vec<u8>)
    ensures
        r@ == spec_block_key(index),
{
    let mut v = "block:".as_bytes_vec();
    let mut tail = u64_to_le_bytes(index);
    v.append(&mut tail);
    v
}

/// The store key of an address's balance record: the `balance:` keyspace.
pub open spec fn spec_balance_key(address: Seq<char>) -> Seq<u8> {
    encode_utf8("balance:"@) + encode_utf8(address)
}

pub(crate) fn balance_key(address: &str) -> (r: Vec<u8>)
    ensures
        r@ == spec_balance_key(address@),
{
    let mut v = "balance:".as_bytes_vec();
    let mut tail = address.as_bytes_vec();
    v.append(&mut tail);
    v
}

/// The two keyspaces never collide: their keys differ in the second byte.
pub proof fn lemma_keyspaces_distinct(index: u64, address: Seq<char>)
    ensures
        spec_block_key(index) != spec_balance_key(address),
{
    reveal_strlit("block:");
    reveal_strlit("balance:");
    let bp = "block:"@;
    let ap = "balance:"@;
    assert(is_ascii_chars(bp));
    assert(is_ascii_chars(ap));
    is_ascii_chars_encode_utf8(bp);
    is_ascii_chars_encode_utf8(ap);
    let k1 = spec_block_key(index);
    let k2 = spec_balance_key(address);
    assert(k1[1] == 'l' as u8);
    assert(k2[1] == 'a' as u8);
    assert(k1[1] != k2[1]);
}

/// Every index owns its own block key.
pub proof fn lemma_block_key_injective(i: u64, j: u64)
    requires
        spec_block_key(i) == spec_block_key(j),
    ensures
        i == j,
{
    reveal_strlit("block:");
    let p = "block:"@;
    assert(is_ascii_chars(p));
    is_ascii_chars_encode_utf8(p);
    vstd::bytes::lemma_auto_spec_u64_to_from_le_bytes();
    let e = encode_utf8(p);
    assert(spec_enc_u64(i) =~= spec_enc_u64(j)) by {
        assert forall|k: int| 0 <= k < 8 implies spec_enc_u64(i)[k] == spec_enc_u64(j)[k] by {
            assert(spec_block_key(i)[e.len() + k] == spec_enc_u64(i)[k]);
            assert(spec_block_key(j)[e.len() + k] == spec_enc_u64(j)[k]);
        }
    }
    assert(vstd::bytes::spec_u64_from_le_bytes(spec_enc_u64(i)) == i);
    assert(vstd::bytes::spec_u64_from_le_bytes(spec_enc_u64(j)) == j);
}

/// Every address owns its own balance key.
pub proof fn lemma_balance_key_injective(a: Seq<char>, b: Seq<char>)
    requires
        spec_balance_key(a) == spec_balance_key(b),
    ensures
        a == b,
{
    reveal_strlit("balance:");
    let p = "balance:"@;
    assert(is_ascii_chars(p));
    is_ascii_chars_encode_utf8(p);
    let e = encode_utf8(p);
    assert(encode_utf8(a) =~= encode_utf8(b)) by {
        assert(spec_balance_key(a).len() == e.len() + encode_utf8(a).len());
        assert forall|k: int|
            0 <= k < encode_utf8(a).len() implies encode_utf8(a)[k] == encode_utf8(b)[k] by {
            assert(spec_balance_key(a)[e.len() + k] == encode_utf8(a)[k]);
            assert(spec_balance_key(b)[e.len() + k] == encode_utf8(b)[k]);
        }
    }
    encode_utf8_decode_utf8(a);
    encode_utf8_decode_utf8(b);
}

/// The stored form of a balance record.
pub open spec fn spec_balance_value(amount: u64) -> Seq<u8> {
    spec_enc_u64(amount)
}

pub(crate) fn balance_value(amount: u64) -> (r: Vec<u8>)
    ensures
        r@ == spec_balance_value(amount),
{
    u64_to_le_bytes(amount)
}

} // verus!
