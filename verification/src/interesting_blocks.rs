use vstd::prelude::*;

use crate::address_inclusion_filter::AddressInclusionFilter;
use crate::hashing::hash_eq;
use crate::transaction::Public;

verus! {

/// What a light node reads of a block's metadata: its hash, once known, and
/// the filter of the addresses the block touches.
pub struct BlockMetadata {
    pub hash: Option<crate::transaction::Hash>,
    pub address_inclusion_filter: AddressInclusionFilter,
}

/// A table from addresses to the hashes recorded for them, as (address,
/// hashes) entries.
pub type Entries = Seq<(Seq<u8>, Seq<crate::transaction::Hash>)>;

/// The first entry for `key`, or -1 when there is none.
pub open spec fn find_first(entries: Entries, key: Seq<u8>) -> int
    decreases entries.len(),
{
    if entries.len() == 0 {
        -1
    } else {
        let r = find_first(entries.drop_last(), key);
        if r >= 0 {
            r
        } else if entries.last().0 == key {
            entries.len() - 1
        } else {
            -1
        }
    }
}

/// The hashes recorded for `key`: those of its first entry, or none.
pub open spec fn lookup(entries: Entries, key: Seq<u8>) -> Seq<crate::transaction::Hash> {
    let j = find_first(entries, key);
    if j >= 0 {
        entries[j].1
    } else {
        Seq::empty()
    }
}

/// Record `hash` for `key`: append it to the key's entry, or add an entry.
pub open spec fn record(entries: Entries, key: Seq<u8>, hash: crate::transaction::Hash) -> Entries {
    let j = find_first(entries, key);
    if j >= 0 {
        entries.update(j, (key, entries[j].1.push(hash)))
    } else {
        entries.push((key, seq![hash]))
    }
}

/// The table after scanning one block: in the order of `addresses`, `hash`
/// is recorded for each address the block's filter reports.
pub open spec fn scan(entries: Entries, addresses: Seq<Public>, present: Set<Seq<u8>>, hash: crate::transaction::Hash) -> Entries
    decreases addresses.len(),
{
    if addresses.len() == 0 {
        entries
    } else {
        let before = scan(entries, addresses.drop_last(), present, hash);
        if present.contains(addresses.last()@) {
            record(before, addresses.last()@, hash)
        } else {
            before
        }
    }
}

/// The hashes of all entries, entry after entry.
pub open spec fn all_hashes(entries: Entries) -> Seq<crate::transaction::Hash>
    decreases entries.len(),
{
    if entries.len() == 0 {
        Seq::empty()
    } else {
        all_hashes(entries.drop_last()) + entries.last().1
    }
}

/// How often `key` occurs among the addresses.
pub open spec fn occurrences(addresses: Seq<Public>, key: Seq<u8>) -> nat
    decreases addresses.len(),
{
    if addresses.len() == 0 {
        0
    } else {
        occurrences(addresses.drop_last(), key) + if addresses.last()@ == key { 1nat } else { 0nat }
    }
}

/// The block hashes a light node found for the addresses it watches.
///
/// The table is a vector of (address, hashes) entries, one per address,
/// rather than a `HashMap`: vstd specifies `HashMap` only for key types that
/// obey its key model (the integer types, `bool` and boxes of them), and a
/// 32-byte address array is not one, so no operation on such a map could be
/// proved. The entries keep the order in which addresses were first hit.
pub struct InterestingBlocks {
    interested: Vec<(Public, Vec<crate::transaction::Hash>)>,
    interested_addresses: Vec<Public>,
}

/// Copy a list of hashes.
fn copy_hashes(v: &Vec<crate::transaction::Hash>) -> (r: Vec<crate::transaction::Hash>)
    ensures
        r@ == v@,
{
    let mut r: Vec<crate::transaction::Hash> = Vec::new();
    let mut i: usize = 0;
    while i < v.len()
        invariant
            i <= v@.len(),
            r@ == v@.take(i as int),
        decreases v@.len() - i,
    {
        r.push(v[i]);
        i = i + 1;
        assert(r@ =~= v@.take(i as int));
    }
    assert(v@.take(v@.len() as int) =~= v@);
    r
}

/// The entry position of `key`: `find_first` computed.
fn find_entry(entries: &Vec<(Public, Vec<crate::transaction::Hash>)>, key: &Public) -> (r: Option<usize>)
    ensures
        r matches Some(j) ==> j < entries@.len() && find_first(entries_view(entries@), key@) == j,
        r is None ==> find_first(entries_view(entries@), key@) == -1,
{
    let ghost ev = entries_view(entries@);
    let mut i: usize = 0;
    while i < entries.len()
        invariant
            i <= entries@.len(),
            ev == entries_view(entries@),
            find_first(ev.take(i as int), key@) == -1,
        decreases entries@.len() - i,
    {
        assert(ev.take(i + 1).drop_last() =~= ev.take(i as int));
        if hash_eq(&entries[i].0, key) {
            proof {
                lemma_find_first_prefix(ev, i + 1, key@);
            }
            return Some(i);
        }
        i = i + 1;
    }
    assert(ev.take(entries@.len() as int) =~= ev);
    None
}

/// Once the first entry for a key lies in a prefix, the whole table finds it
/// there too.
proof fn lemma_find_first_prefix(entries: Entries, n: int, key: Seq<u8>)
    requires
        0 <= n <= entries.len(),
        find_first(entries.take(n), key) >= 0,
    ensures
        find_first(entries, key) == find_first(entries.take(n), key),
    decreases entries.len(),
{
    if n < entries.len() {
        assert(entries.drop_last().take(n) =~= entries.take(n));
        lemma_find_first_prefix(entries.drop_last(), n, key);
    } else {
        assert(entries.take(n) =~= entries);
    }
}

/// `find_first` only looks at keys and finds an index within bounds.
proof fn lemma_find_first_bounds(entries: Entries, key: Seq<u8>)
    ensures
        -1 <= find_first(entries, key) < entries.len(),
        find_first(entries, key) >= 0 ==> entries[find_first(entries, key)].0 == key,
    decreases entries.len(),
{
    if entries.len() > 0 {
        lemma_find_first_bounds(entries.drop_last(), key);
    }
}

/// Changing what an entry holds, but not its key, keeps every lookup's
/// position.
proof fn lemma_find_first_same_keys(a: Entries, b: Entries, key: Seq<u8>)
    requires
        a.len() == b.len(),
        forall|i: int| 0 <= i < a.len() ==> #[trigger] a[i].0 == b[i].0,
    ensures
        find_first(a, key) == find_first(b, key),
    decreases a.len(),
{
    if a.len() > 0 {
        lemma_find_first_same_keys(a.drop_last(), b.drop_last(), key);
    }
}

/// Recording a hash for one key appends it to that key's hashes and leaves
/// every other key's hashes as they were.
pub proof fn lemma_record_lookup(entries: Entries, recorded: Seq<u8>, hash: crate::transaction::Hash, key: Seq<u8>)
    ensures
        lookup(record(entries, recorded, hash), key) == if key == recorded {
            lookup(entries, key).push(hash)
        } else {
            lookup(entries, key)
        },
{
    lemma_find_first_bounds(entries, recorded);
    lemma_find_first_bounds(entries, key);
    let j = find_first(entries, recorded);
    let after = record(entries, recorded, hash);
    if j >= 0 {
        lemma_find_first_same_keys(entries, after, key);
        if key != recorded && find_first(entries, key) >= 0 {
            assert(find_first(entries, key) != j);
        }
    } else {
        assert(after.drop_last() =~= entries);
        if key == recorded {
            assert(lookup(entries, key) =~= Seq::<crate::transaction::Hash>::empty());
            assert(seq![hash] =~= Seq::<crate::transaction::Hash>::empty().push(hash));
        }
    }
}

/// `n` copies of `hash`.
pub open spec fn repeat(hash: crate::transaction::Hash, n: nat) -> Seq<crate::transaction::Hash> {
    Seq::new(n, |i: int| hash)
}

/// After a scan, an address's hashes are what they were, followed by the
/// block's hash once for every time the address is watched, when the block's
/// filter reports the address (and unchanged otherwise).
pub proof fn law_scan_records_reported_addresses(
    entries: Entries,
    addresses: Seq<Public>,
    present: Set<Seq<u8>>,
    hash: crate::transaction::Hash,
    key: Seq<u8>,
)
    ensures
        lookup(scan(entries, addresses, present, hash), key) == lookup(entries, key) + repeat(
            hash,
            if present.contains(key) { occurrences(addresses, key) } else { 0 },
        ),
    decreases addresses.len(),
{
    if addresses.len() == 0 {
        assert(lookup(entries, key) + repeat(hash, 0) =~= lookup(entries, key));
    } else {
        let rest = addresses.drop_last();
        let last = addresses.last()@;
        law_scan_records_reported_addresses(entries, rest, present, hash, key);
        let before = scan(entries, rest, present, hash);
        let n = if present.contains(key) { occurrences(rest, key) } else { 0 };
        if present.contains(last) {
            lemma_record_lookup(before, last, hash, key);
            if key == last {
                assert(lookup(entries, key) + repeat(hash, n) + seq![hash] =~= lookup(entries, key)
                    + repeat(hash, n + 1));
            }
        }
    }
}

/// The addresses as byte strings.
pub open spec fn address_views(addresses: Seq<Public>) -> Seq<Seq<u8>> {
    addresses.map_values(|a: Public| a@)
}

/// Every entry of the table is for a watched address and holds at least one
/// hash.
pub open spec fn entries_watched(entries: Entries, addresses: Seq<Public>) -> bool {
    forall|i: int|
        0 <= i < entries.len() ==> address_views(addresses).contains((#[trigger] entries[i]).0)
            && entries[i].1.len() > 0
}

/// Recording a hit for a watched address keeps the table watched.
proof fn lemma_record_watched(entries: Entries, key: Seq<u8>, hash: crate::transaction::Hash, addresses: Seq<Public>)
    requires
        entries_watched(entries, addresses),
        address_views(addresses).contains(key),
    ensures
        entries_watched(record(entries, key, hash), addresses),
{
    lemma_find_first_bounds(entries, key);
    let after = record(entries, key, hash);
    assert forall|i: int| 0 <= i < after.len() implies address_views(addresses).contains(
        (#[trigger] after[i]).0,
    ) && after[i].1.len() > 0 by {
        if i < entries.len() {
            assert(entries[i].0 == entries[i].0);
        }
    }
}

/// Scanning addresses that are all watched keeps the table watched: every
/// entry stays the entry of a watched address with at least one hash.
pub proof fn law_scan_keeps_watched(
    entries: Entries,
    scanned: Seq<Public>,
    addresses: Seq<Public>,
    present: Set<Seq<u8>>,
    hash: crate::transaction::Hash,
)
    requires
        entries_watched(entries, addresses),
        forall|i: int| 0 <= i < scanned.len() ==> address_views(addresses).contains(#[trigger] scanned[i]@),
    ensures
        entries_watched(scan(entries, scanned, present, hash), addresses),
    decreases scanned.len(),
{
    if scanned.len() > 0 {
        let rest = scanned.drop_last();
        assert forall|i: int| 0 <= i < rest.len() implies address_views(addresses).contains(
            #[trigger] rest[i]@,
        ) by {
            assert(rest[i] == scanned[i]);
        }
        law_scan_keeps_watched(entries, rest, addresses, present, hash);
        let last = scanned[scanned.len() - 1];
        if present.contains(last@) {
            lemma_record_watched(scan(entries, rest, present, hash), last@, hash, addresses);
        }
    }
}

/// The table after scanning one block: its hash, when it has one, recorded
/// for each watched address its filter reports, when the filter can be read.
pub open spec fn scan_block(
    entries: Entries,
    addresses: Seq<Public>,
    hash: Option<crate::transaction::Hash>,
    members: Option<Set<Seq<u8>>>,
) -> Entries {
    match hash {
        None => entries,
        Some(h) => match members {
            None => entries,
            Some(m) => scan(entries, addresses, m, h),
        },
    }
}

/// The table after scanning blocks in order, each given by its hash and the
/// addresses its filter reports.
pub open spec fn scan_blocks(
    entries: Entries,
    addresses: Seq<Public>,
    blocks: Seq<(Option<crate::transaction::Hash>, Option<Set<Seq<u8>>>)>,
) -> Entries
    decreases blocks.len(),
{
    if blocks.len() == 0 {
        entries
    } else {
        scan_block(
            scan_blocks(entries, addresses, blocks.drop_last()),
            addresses,
            blocks.last().0,
            blocks.last().1,
        )
    }
}

/// What scanning one block records for `key`: its hash once per time `key`
/// is watched, when the block has a hash and its filter reports `key`.
pub open spec fn block_hits(
    addresses: Seq<Public>,
    block: (Option<crate::transaction::Hash>, Option<Set<Seq<u8>>>),
    key: Seq<u8>,
) -> Seq<crate::transaction::Hash> {
    match block.0 {
        None => Seq::empty(),
        Some(h) => match block.1 {
            None => Seq::empty(),
            Some(m) => repeat(h, if m.contains(key) { occurrences(addresses, key) } else { 0 }),
        },
    }
}

/// What scanning blocks in order records for `key`, block after block.
pub open spec fn all_hits(
    addresses: Seq<Public>,
    blocks: Seq<(Option<crate::transaction::Hash>, Option<Set<Seq<u8>>>)>,
    key: Seq<u8>,
) -> Seq<crate::transaction::Hash>
    decreases blocks.len(),
{
    if blocks.len() == 0 {
        Seq::empty()
    } else {
        all_hits(addresses, blocks.drop_last(), key) + block_hits(addresses, blocks.last(), key)
    }
}

/// After scanning blocks in order, an address's hashes are what they were,
/// followed by what each block recorded for it, in scanning order.
pub proof fn law_scans_record_in_order(
    entries: Entries,
    addresses: Seq<Public>,
    blocks: Seq<(Option<crate::transaction::Hash>, Option<Set<Seq<u8>>>)>,
    key: Seq<u8>,
)
    ensures
        lookup(scan_blocks(entries, addresses, blocks), key) == lookup(entries, key) + all_hits(
            addresses,
            blocks,
            key,
        ),
    decreases blocks.len(),
{
    if blocks.len() == 0 {
        assert(lookup(entries, key) + Seq::<crate::transaction::Hash>::empty() =~= lookup(entries, key));
    } else {
        let rest = blocks.drop_last();
        let b = blocks.last();
        law_scans_record_in_order(entries, addresses, rest, key);
        let before = scan_blocks(entries, addresses, rest);
        match b.0 {
            None => {
                assert(lookup(entries, key) + all_hits(addresses, rest, key) + Seq::<crate::transaction::Hash>::empty()
                    =~= lookup(entries, key) + all_hits(addresses, rest, key));
            },
            Some(h) => match b.1 {
                None => {
                    assert(lookup(entries, key) + all_hits(addresses, rest, key) + Seq::<crate::transaction::Hash>::empty()
                        =~= lookup(entries, key) + all_hits(addresses, rest, key));
                },
                Some(m) => {
                    law_scan_records_reported_addresses(before, addresses, m, h, key);
                    assert(lookup(entries, key) + all_hits(addresses, rest, key) + block_hits(
                        addresses,
                        b,
                        key,
                    ) =~= lookup(entries, key) + (all_hits(addresses, rest, key) + block_hits(
                        addresses,
                        b,
                        key,
                    )));
                },
            },
        }
    }
}

/// The view of the table: each address with its hashes.
pub open spec fn entries_view(entries: Seq<(Public, Vec<crate::transaction::Hash>)>) -> Entries {
    entries.map_values(|e: (Public, Vec<crate::transaction::Hash>)| (e.0@, e.1@))
}

impl InterestingBlocks {
    /// The recorded (address, hashes) entries, in the order addresses were
    /// first recorded.
    pub closed spec fn entries(self) -> Entries {
        entries_view(self.interested@)
    }

    /// The addresses this tracker watches.
    pub closed spec fn addresses(self) -> Seq<Public> {
        self.interested_addresses@
    }

    /// A tracker for these addresses, with nothing recorded yet.
    pub fn new(interested_addresses: Vec<Public>) -> (r: Self)
        ensures
            r.entries() == Seq::<(Seq<u8>, Seq<crate::transaction::Hash>)>::empty(),
            r.addresses() == interested_addresses@,
            entries_watched(r.entries(), r.addresses()),
            keys_distinct(r.entries()),
    {
        let r = InterestingBlocks { interested: Vec::new(), interested_addresses };
        assert(r.entries() =~= Seq::<(Seq<u8>, Seq<crate::transaction::Hash>)>::empty());
        r
    }

    /// Record the block's hash for every watched address its filter reports,
    /// in the order of the watched addresses. A block without a hash, or whose
    /// filter cannot be read, records nothing.
    pub fn scan_and_add(&mut self, block_meta: &BlockMetadata)
        ensures
            final(self).addresses() == old(self).addresses(),
            final(self).entries() == scan_block(
                old(self).entries(),
                old(self).addresses(),
                block_meta.hash,
                block_meta.address_inclusion_filter.members(),
            ),
            entries_watched(old(self).entries(), old(self).addresses()) ==> entries_watched(
                final(self).entries(),
                final(self).addresses(),
            ),
            keys_distinct(old(self).entries()) ==> keys_distinct(final(self).entries()),
    {
        proof {
            let addrs = self.interested_addresses@;
            assert forall|i: int| 0 <= i < addrs.len() implies address_views(addrs).contains(
                #[trigger] addrs[i]@,
            ) by {
                assert(address_views(addrs)[i] == addrs[i]@);
            }
            match block_meta.hash {
                Some(h) => match block_meta.address_inclusion_filter.members() {
                    Some(m) => {
                        if entries_watched(self.entries(), addrs) {
                            law_scan_keeps_watched(self.entries(), addrs, addrs, m, h);
                        }
                        if keys_distinct(self.entries()) {
                            lemma_scan_keeps_keys_distinct(self.entries(), addrs, m, h);
                        }
                    },
                    None => {},
                },
                None => {},
            }
        }
        if let Some(block_hash) = block_meta.hash {
            let ghost start = self.entries();
            let mut i: usize = 0;
            while i < self.interested_addresses.len()
                invariant
                    i <= self.interested_addresses@.len(),
                    self.interested_addresses@ == old(self).interested_addresses@,
                    start == old(self).entries(),
                    block_meta.hash == Some(block_hash),
                    block_meta.address_inclusion_filter.members() matches Some(m) ==>
                        self.entries() == scan(start, self.interested_addresses@.take(i as int), m, block_hash),
                    block_meta.address_inclusion_filter.members() is None ==> self.entries() == start,
                decreases self.interested_addresses@.len() - i,
            {
                let address = self.interested_addresses[i];
                let found = block_meta.address_inclusion_filter.search_filter(address);
                proof {
                    assert(self.interested_addresses@.take(i + 1).drop_last()
                        =~= self.interested_addresses@.take(i as int));
                    assert(self.interested_addresses@.take(i + 1).last() == address);
                }
                let is_present = match found {
                    Ok(r) => r,
                    Err(_) => false,
                };
                if is_present {
                    self.record_hit(&address, block_hash);
                }
                i = i + 1;
            }
            assert(self.interested_addresses@.take(self.interested_addresses@.len() as int)
                =~= self.interested_addresses@);
        }
    }

    /// Append `hash` to the entry for `address`, adding the entry when there
    /// is none.
    fn record_hit(&mut self, address: &Public, hash: crate::transaction::Hash)
        ensures
            final(self).interested_addresses == old(self).interested_addresses,
            final(self).entries() == record(old(self).entries(), address@, hash),
    {
        let ghost before = self.entries();
        proof {
            lemma_find_first_bounds(before, address@);
        }
        match find_entry(&self.interested, address) {
            Some(j) => {
                let (key, mut list) = self.interested.remove(j);
                list.push(hash);
                self.interested.insert(j, (key, list));
                assert(self.entries() =~= before.update(j as int, (address@, before[j as int].1.push(hash))));
            },
            None => {
                let mut list: Vec<crate::transaction::Hash> = Vec::new();
                list.push(hash);
                assert(list@ =~= seq![hash]);
                self.interested.push((*address, list));
                assert(self.entries() =~= before.push((address@, seq![hash])));
            },
        }
    }

    // Returns all hashes found across all monitored addresses
    pub fn get_all_interested_hashes(&self) -> (r: Vec<crate::transaction::Hash>)
        ensures
            r@ == all_hashes(self.entries()),
    {
        let ghost ev = self.entries();
        let mut r: Vec<crate::transaction::Hash> = Vec::new();
        let mut i: usize = 0;
        while i < self.interested.len()
            invariant
                i <= self.interested@.len(),
                ev == entries_view(self.interested@),
                r@ == all_hashes(ev.take(i as int)),
            decreases self.interested@.len() - i,
        {
            let list = &self.interested[i].1;
            let mut k: usize = 0;
            let ghost base = r@;
            while k < list.len()
                invariant
                    k <= list@.len(),
                    r@ == base + list@.take(k as int),
                decreases list@.len() - k,
            {
                r.push(list[k]);
                k = k + 1;
                assert(r@ =~= base + list@.take(k as int));
            }
            assert(list@.take(list@.len() as int) =~= list@);
            assert(ev.take(i + 1).drop_last() =~= ev.take(i as int));
            i = i + 1;
        }
        assert(ev.take(self.interested@.len() as int) =~= ev);
        r
    }

    // Returns hashes for a specific address
    pub fn get_hashes_for_address(&self, address: &Public) -> (r: Vec<crate::transaction::Hash>)
        ensures
            r@ == lookup(self.entries(), address@),
    {
        match find_entry(&self.interested, address) {
            Some(j) => copy_hashes(&self.interested[j].1),
            None => Vec::new(),
        }
    }
}

/// No two entries of the table are for the same address.
pub open spec fn keys_distinct(entries: Entries) -> bool {
    forall|i: int, j: int| 0 <= i < j < entries.len() ==> (#[trigger] entries[i]).0 != (#[trigger] entries[j]).0
}

/// A key with no first entry has no entry at all.
proof fn lemma_find_first_absent(entries: Entries, key: Seq<u8>)
    requires
        find_first(entries, key) < 0,
    ensures
        forall|i: int| 0 <= i < entries.len() ==> (#[trigger] entries[i]).0 != key,
    decreases entries.len(),
{
    if entries.len() > 0 {
        lemma_find_first_absent(entries.drop_last(), key);
        assert forall|i: int| 0 <= i < entries.len() implies (#[trigger] entries[i]).0 != key by {
            if i < entries.len() - 1 {
                assert(entries.drop_last()[i] == entries[i]);
            }
        }
    }
}

/// In a table without repeated addresses, an entry's hashes are what a
/// lookup of its address gives.
proof fn lemma_lookup_distinct(entries: Entries, i: int)
    requires
        keys_distinct(entries),
        0 <= i < entries.len(),
    ensures
        lookup(entries, entries[i].0) == entries[i].1,
{
    let key = entries[i].0;
    lemma_find_first_bounds(entries, key);
    let j = find_first(entries, key);
    if j < 0 {
        lemma_find_first_absent(entries, key);
    } else if j != i {
        assert(entries[j].0 == key);
    }
}

/// Recording a hash never gives an address a second entry.
proof fn lemma_record_keeps_keys_distinct(entries: Entries, key: Seq<u8>, hash: crate::transaction::Hash)
    requires
        keys_distinct(entries),
    ensures
        keys_distinct(record(entries, key, hash)),
{
    lemma_find_first_bounds(entries, key);
    let after = record(entries, key, hash);
    if find_first(entries, key) >= 0 {
        assert forall|i: int| 0 <= i < after.len() implies (#[trigger] after[i]).0 == entries[i].0 by {}
    } else {
        lemma_find_first_absent(entries, key);
        assert forall|i: int, j: int| 0 <= i < j < after.len() implies (#[trigger] after[i]).0
            != (#[trigger] after[j]).0 by {
            if j == after.len() - 1 {
                assert(after[i] == entries[i]);
            } else {
                assert(after[i] == entries[i] && after[j] == entries[j]);
            }
        }
    }
}

/// Scanning blocks never gives an address a second entry, so every table an
/// `InterestingBlocks` holds (starting empty) has one entry per address.
pub proof fn law_scans_keep_one_entry_per_address(
    entries: Entries,
    addresses: Seq<Public>,
    blocks: Seq<(Option<crate::transaction::Hash>, Option<Set<Seq<u8>>>)>,
)
    requires
        keys_distinct(entries),
    ensures
        keys_distinct(scan_blocks(entries, addresses, blocks)),
    decreases blocks.len(),
{
    if blocks.len() > 0 {
        law_scans_keep_one_entry_per_address(entries, addresses, blocks.drop_last());
        let before = scan_blocks(entries, addresses, blocks.drop_last());
        match blocks.last().0 {
            None => {},
            Some(h) => match blocks.last().1 {
                None => {},
                Some(m) => lemma_scan_keeps_keys_distinct(before, addresses, m, h),
            },
        }
    }
}

/// Scanning one block never gives an address a second entry.
proof fn lemma_scan_keeps_keys_distinct(
    entries: Entries,
    addresses: Seq<Public>,
    present: Set<Seq<u8>>,
    hash: crate::transaction::Hash,
)
    requires
        keys_distinct(entries),
    ensures
        keys_distinct(scan(entries, addresses, present, hash)),
    decreases addresses.len(),
{
    if addresses.len() > 0 {
        lemma_scan_keeps_keys_distinct(entries, addresses.drop_last(), present, hash);
        let before = scan(entries, addresses.drop_last(), present, hash);
        if present.contains(addresses.last()@) {
            lemma_record_keeps_keys_distinct(before, addresses.last()@, hash);
        }
    }
}

/// All the hashes of a table with one entry per address are the hashes
/// each recorded address looks up to, address after address, with every
/// hash of every address kept (so their number is the sum of the lookups'
/// lengths).
pub proof fn law_all_hashes_gather_every_lookup(entries: Entries)
    requires
        keys_distinct(entries),
    ensures
        all_hashes(entries) == entries.map_values(
            |e: (Seq<u8>, Seq<crate::transaction::Hash>)| lookup(entries, e.0),
        ).flatten(),
{
    let looked = entries.map_values(|e: (Seq<u8>, Seq<crate::transaction::Hash>)| lookup(entries, e.0));
    let held = entries.map_values(|e: (Seq<u8>, Seq<crate::transaction::Hash>)| e.1);
    assert forall|i: int| 0 <= i < entries.len() implies #[trigger] looked[i] == held[i] by {
        lemma_lookup_distinct(entries, i);
    }
    assert(looked =~= held);
    lemma_all_hashes_flatten(entries);
    held.lemma_flatten_and_flatten_alt_are_equivalent();
}

/// All the hashes of a table are its entries' hashes concatenated, last
/// entry last.
proof fn lemma_all_hashes_flatten(entries: Entries)
    ensures
        all_hashes(entries) == entries.map_values(
            |e: (Seq<u8>, Seq<crate::transaction::Hash>)| e.1,
        ).flatten_alt(),
    decreases entries.len(),
{
    if entries.len() > 0 {
        lemma_all_hashes_flatten(entries.drop_last());
        assert(entries.map_values(|e: (Seq<u8>, Seq<crate::transaction::Hash>)| e.1).drop_last()
            =~= entries.drop_last().map_values(|e: (Seq<u8>, Seq<crate::transaction::Hash>)| e.1));
    }
}

/// How often an address is watched is the number of positions of the
/// watched list that hold it.
pub proof fn law_occurrences_count_positions(addresses: Seq<Public>, key: Seq<u8>)
    ensures
        occurrences(addresses, key) == addresses.filter(|a: Public| a@ == key).len(),
    decreases addresses.len(),
{
    reveal(Seq::filter);
    if addresses.len() > 0 {
        law_occurrences_count_positions(addresses.drop_last(), key);
    }
}

} // verus!
