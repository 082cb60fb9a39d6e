//! What the views of records, blocks and members show.

use vstd::prelude::*;

use crate::apply::HostEvidence;
use crate::asset_registry::AssetRecord;
use crate::authority_registry::{authority_reason, AuthorityRecord};
use crate::block::evidence_views;
use crate::burn_nullifier::{nullifier_bytes, NullifierTable};
use crate::fastpath::cert::AuthorityId;
use crate::fastpath::ring::AuthorityMember;
use crate::fastpath::slashing::in_order;
use crate::indexer::store::{block_views, texts, IndexedBlock};
use crate::l2_state::{self, L2View};
use crate::laws::fastpath::lemma_signers_in_order;
use crate::ordered::{
    lemma_sorted_rows, row_views, sorted_rows, unit_map, value_views, OrderedKey,
};
use crate::slots::Flaw;
use crate::substrate::{registry_in, seeded, Address, Balance};
use crate::table::table_bytes;
use crate::validator_registry::validator_reason;

verus! {

/// The view of a slot, an asset, a ring member or an indexed block shows every field
/// of it.
pub proof fn law_views_show_every_field(
    r: AuthorityRecord,
    a: AssetRecord,
    m: AuthorityMember,
    b: IndexedBlock,
)
    ensures
        r@.mldsa == r.mldsa_public_key@,
        r@.bls == r.bls_public_key@,
        r@.stake == r.stake_gsx,
        r@.deposited == r.deposited_stake,
        r@.exit_height == r.exit_block_height,
        r@.status == r.status,
        a@.source_chain == a.source_chain,
        a@.source_contract == a.source_contract@,
        a@.decimals == a.decimals,
        a@.name == a.name@,
        a@.symbol == a.symbol@,
        a@.status == a.status,
        m@.id == m.id,
        m@.stake_gsx == m.stake_gsx,
        m@.public_key_bytes == m.public_key_bytes@,
        b@.round == b.round,
        b@.indexed_at_ms == b.indexed_at_ms,
        b@.cert_hash == b.cert_hash@,
        b@.tx_hashes.len() == b.tx_hashes@.len(),
        forall|i: int|
            0 <= i < b.tx_hashes@.len() ==> #[trigger] b@.tx_hashes[i] == b.tx_hashes@[i]@,
{
}

/// The views of several texts, blocks, rows or findings show each of them in its
/// place.
pub proof fn law_views_show_every_item<K, V: View>(
    v: Seq<String>,
    blocks: Seq<IndexedBlock>,
    found: Seq<HostEvidence>,
    rows: Seq<(K, V)>,
    m: Map<K, V>,
    i: int,
    k: K,
)
    ensures
        texts(v).len() == v.len(),
        0 <= i < v.len() ==> texts(v)[i] == v[i]@,
        block_views(blocks).len() == blocks.len(),
        0 <= i < blocks.len() ==> block_views(blocks)[i] == blocks[i]@,
        evidence_views(found).len() == found.len(),
        0 <= i < found.len() ==> !evidence_views(found)[i].burn_included,
        0 <= i < found.len() ==> (evidence_views(found)[i].pairing is Ok <==> found[i].pairing
            is Ok),
        row_views(rows).len() == rows.len(),
        0 <= i < rows.len() ==> row_views(rows)[i].0 == rows[i].0 && row_views(rows)[i].1
            == rows[i].1@,
        value_views(m).dom().contains(k) <==> m.dom().contains(k),
        m.dom().contains(k) ==> value_views(m)[k] == m[k]@,
{
}

/// A state is seeded with the last amount that is listed for each account; a listed
/// amount of nothing is passed over.
pub proof fn law_seeds_count_the_last_amount(
    entries: Seq<(Address, Balance)>,
    a: Address,
    v: Balance,
    other: Address,
)
    ensures
        ({
            let before = seeded(entries);
            let after = seeded(entries.push((a, v)));
            &&& v > 0 ==> after.dom().contains(a) && after[a] == v
            &&& v == 0 ==> after == before
            &&& other != a ==> after.dom().contains(other) == before.dom().contains(other)
            &&& other != a && before.dom().contains(other) ==> after[other] == before[other]
            &&& seeded(Seq::empty()).dom().len() == 0
        }),
{
    assert(entries.push((a, v)).drop_last() =~= entries);
}

/// The signers of a certificate are listed once each, by ascending number.
pub proof fn law_signers_are_listed_in_order(s: Set<AuthorityId>, id: AuthorityId, i: int, j: int)
    requires
        s.finite(),
    ensures
        in_order(s).len() == s.len(),
        in_order(s).contains(id) <==> s.contains(id),
        0 <= i < j < s.len() ==> in_order(s)[i] < in_order(s)[j],
{
    let m = unit_map(s);
    let rows = sorted_rows(m);
    assert(m.dom() =~= s);
    lemma_sorted_rows(m);
    lemma_signers_in_order(s);
    if 0 <= i < j < s.len() {
        assert(rows[i].0.before(rows[j].0));
    }
}

/// The claimed burns are written as a table without values, one row for each.
pub proof fn law_claims_are_written_as_a_table(s: Set<[u8; 32]>, id: [u8; 32])
    ensures
        nullifier_bytes(s) == table_bytes::<NullifierTable>(unit_map(s)),
        unit_map(s).dom().contains(id) <==> s.contains(id),
{
}

/// An L2 registry is read from its record, and is empty where there is none or it
/// cannot be read.
pub proof fn law_registries_are_read_from_records(record: Option<Vec<u8>>)
    ensures
        record is None ==> registry_in(record) == L2View::empty(),
        record matches Some(b) ==> (l2_state::parse(b@) matches Ok(v) ==> registry_in(record) == v),
        record matches Some(b) ==> (l2_state::parse(b@) is Err ==> registry_in(record)
            == L2View::empty()),
{
}

/// Each flaw of a ring record has its own words, which name the ring.
pub proof fn law_flaws_have_their_words()
    ensures
        authority_reason(Flaw::Header) == "authority registry header missing",
        authority_reason(Flaw::Version) == "authority registry version mismatch",
        authority_reason(Flaw::Truncated) == "authority registry entry truncated",
        authority_reason(Flaw::Status) == "authority status out of range",
        authority_reason(Flaw::MldsaLength) == "authority mldsa_pk length invalid",
        authority_reason(Flaw::BlsMissing) == "authority bls_pk length missing",
        authority_reason(Flaw::BlsLength) == "authority bls_pk length invalid",
        authority_reason(Flaw::Duplicate) == "authority registry has duplicate authority_id",
        authority_reason(Flaw::Trailing) == "authority registry trailing bytes",
        validator_reason(Flaw::Header) == "validator registry header missing",
        validator_reason(Flaw::Version) == "validator registry version mismatch",
        validator_reason(Flaw::Truncated) == "validator registry entry truncated",
        validator_reason(Flaw::Status) == "validator status out of range",
        validator_reason(Flaw::MldsaLength) == "validator mldsa_pk length invalid",
        validator_reason(Flaw::BlsMissing) == "validator bls_pk length missing",
        validator_reason(Flaw::BlsLength) == "validator bls_pk length invalid",
        validator_reason(Flaw::Duplicate) == "validator registry has duplicate validator_id",
        validator_reason(Flaw::Trailing) == "validator registry trailing bytes",
{
}

} // verus!
