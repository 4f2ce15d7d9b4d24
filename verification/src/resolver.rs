use crate::hex::{is_hex_digest, lemma_hex_digest_is_ascii};
use crate::order::{
    lemma_lex_lt_asymmetric, lemma_lex_lt_total, lemma_lex_lt_transitive, lex_lt, precedes,
};
use crate::record::{record_views, FileRecord, FileRecordView};
use vstd::prelude::*;
use vstd::string::*;

verus! {

/// What a [`DuplicateSet`] says, as plain values.
pub struct DuplicateSetView {
    /// The fingerprint that the records share.
    pub hash: Seq<char>,
    /// The records, in the order in which the store listed them.
    pub records: Seq<FileRecordView>,
}

/// Files with the same content: the records that share one fingerprint.
#[derive(Debug)]
pub struct DuplicateSet {
    hash: String,
    records: Vec<FileRecord>,
}

impl View for DuplicateSet {
    type V = DuplicateSetView;

    closed spec fn view(&self) -> DuplicateSetView {
        DuplicateSetView { hash: self.hash@, records: record_views(self.records@) }
    }
}

/// What the sets of a list say, in the list's order.
pub open spec fn set_views(sets: Seq<DuplicateSet>) -> Seq<DuplicateSetView> {
    sets.map_values(|s: DuplicateSet| s@)
}

impl DuplicateSet {
    #[verifier::type_invariant]
    spec fn well_formed(self) -> bool {
        is_hex_digest(self.hash@)
    }

    /// The fingerprint that the records share.
    pub fn hash(&self) -> (s: &str)
        ensures
            s@ == self@.hash,
            is_hex_digest(s@),
            is_ascii(s),
    {
        proof {
            use_type_invariant(self);
            lemma_hex_digest_is_ascii(self.hash@);
        }
        self.hash.as_str()
    }

    /// The records of the set.
    pub fn records(&self) -> (r: &Vec<FileRecord>)
        ensures
            record_views(r@) == self@.records,
    {
        &self.records
    }

    /// The number of records in the set.
    pub fn len(&self) -> (n: usize)
        ensures
            n == self@.records.len(),
    {
        self.records.len()
    }
}

/// The test "has fingerprint `h`".
pub open spec fn has_hash(h: Seq<char>) -> spec_fn(FileRecordView) -> bool {
    |r: FileRecordView| r.hash == h
}

/// The records with fingerprint `h`, in their order.
pub open spec fn with_hash(records: Seq<FileRecordView>, h: Seq<char>) -> Seq<FileRecordView> {
    records.filter(has_hash(h))
}

/// Whether at least two records have fingerprint `h`.
pub open spec fn is_duplicated(records: Seq<FileRecordView>, h: Seq<char>) -> bool {
    with_hash(records, h).len() >= 2
}

/// Whether a set of `size_a` records with fingerprint `hash_a` is reported
/// before one of `size_b` records with fingerprint `hash_b`: the larger set
/// first, and of two sets of one size the one whose fingerprint comes first.
pub open spec fn rank_lt(size_a: nat, hash_a: Seq<char>, size_b: nat, hash_b: Seq<char>) -> bool {
    size_a > size_b || (size_a == size_b && lex_lt(hash_a, hash_b))
}

/// Whether set `a` is reported before set `b`.
pub open spec fn ranks_before(a: DuplicateSetView, b: DuplicateSetView) -> bool {
    rank_lt(a.records.len(), a.hash, b.records.len(), b.hash)
}

/// Whether some set of the list is that of fingerprint `h`.
pub open spec fn listed(sets: Seq<DuplicateSetView>, h: Seq<char>) -> bool {
    exists|k: int| 0 <= k < sets.len() && (#[trigger] sets[k]).hash == h
}

/// Every set holds exactly the records that have its fingerprint, and at
/// least two of them.
pub open spec fn grouped(records: Seq<FileRecordView>, sets: Seq<DuplicateSetView>) -> bool {
    forall|k: int|
        0 <= k < sets.len() ==> {
            &&& (#[trigger] sets[k]).records == with_hash(records, sets[k].hash)
            &&& sets[k].records.len() >= 2
        }
}

/// Every fingerprint that is duplicated among the first `upto` records has
/// its set.
pub open spec fn covers(records: Seq<FileRecordView>, sets: Seq<DuplicateSetView>, upto: int) -> bool {
    forall|i: int|
        0 <= i < upto && i < records.len() && is_duplicated(records, (#[trigger] records[i]).hash)
            ==> listed(sets, records[i].hash)
}

/// Every set is reported before all that follow it. As no set is reported
/// before itself, no fingerprint has two sets.
pub open spec fn ranked(sets: Seq<DuplicateSetView>) -> bool {
    forall|j: int, k: int|
        0 <= j < k < sets.len() ==> ranks_before(#[trigger] sets[j], #[trigger] sets[k])
}

/// Whether `sets` is the list of duplicate sets of `records`: one set for
/// each fingerprint that at least two records share, holding exactly those
/// records in their order, the sets ordered by falling size and, within one
/// size, by rising fingerprint.
pub open spec fn is_resolution(records: Seq<FileRecordView>, sets: Seq<DuplicateSetView>) -> bool {
    &&& grouped(records, sets)
    &&& covers(records, sets, records.len() as int)
    &&& ranked(sets)
}

/// The report order is transitive.
pub proof fn lemma_rank_lt_transitive(
    size_a: nat,
    hash_a: Seq<char>,
    size_b: nat,
    hash_b: Seq<char>,
    size_c: nat,
    hash_c: Seq<char>,
)
    requires
        rank_lt(size_a, hash_a, size_b, hash_b),
        rank_lt(size_b, hash_b, size_c, hash_c),
    ensures
        rank_lt(size_a, hash_a, size_c, hash_c),
{
    if size_a == size_b && size_b == size_c {
        lemma_lex_lt_transitive(hash_a, hash_b, hash_c);
    }
}

/// Of two sets with different fingerprints one is reported before the other.
pub proof fn lemma_rank_lt_total(size_a: nat, hash_a: Seq<char>, size_b: nat, hash_b: Seq<char>)
    requires
        hash_a != hash_b,
    ensures
        rank_lt(size_a, hash_a, size_b, hash_b) || rank_lt(size_b, hash_b, size_a, hash_a),
{
    lemma_lex_lt_total(hash_a, hash_b);
}

proof fn lemma_insert_keeps_resolution(
    records: Seq<FileRecordView>,
    sets: Seq<DuplicateSetView>,
    p: int,
    s: DuplicateSetView,
)
    requires
        grouped(records, sets),
        ranked(sets),
        0 <= p <= sets.len(),
        s.records == with_hash(records, s.hash),
        s.records.len() >= 2,
        !listed(sets, s.hash),
        forall|k: int| 0 <= k < p ==> ranks_before(#[trigger] sets[k], s),
        p < sets.len() ==> !ranks_before(sets[p], s),
    ensures
        grouped(records, sets.insert(p, s)),
        ranked(sets.insert(p, s)),
        listed(sets.insert(p, s), s.hash),
        forall|h: Seq<char>| listed(sets, h) ==> #[trigger] listed(sets.insert(p, s), h),
{
    let t = sets.insert(p, s);
    assert(t.len() == sets.len() + 1);
    assert(t[p] == s);
    assert forall|k: int| 0 <= k < p implies #[trigger] t[k] == sets[k] by {}
    assert forall|k: int| p < k < t.len() implies #[trigger] t[k] == sets[k - 1] by {}
    assert forall|k: int| p <= k < sets.len() implies ranks_before(s, #[trigger] sets[k]) by {
        assert(sets[p].hash != s.hash);
        lemma_rank_lt_total(sets[p].records.len(), sets[p].hash, s.records.len(), s.hash);
        if k > p {
            assert(ranks_before(sets[p], sets[k]));
            lemma_rank_lt_transitive(
                s.records.len(),
                s.hash,
                sets[p].records.len(),
                sets[p].hash,
                sets[k].records.len(),
                sets[k].hash,
            );
        }
    }
    assert forall|k: int| 0 <= k < t.len() implies {
        &&& (#[trigger] t[k]).records == with_hash(records, t[k].hash)
        &&& t[k].records.len() >= 2
    } by {
        if k < p {
            assert(t[k] == sets[k]);
        } else if k > p {
            assert(t[k] == sets[k - 1]);
        }
    }
    assert forall|j: int, k: int| 0 <= j < k < t.len() implies ranks_before(
        #[trigger] t[j],
        #[trigger] t[k],
    ) by {
        if k < p {
            assert(t[j] == sets[j] && t[k] == sets[k]);
        } else if k == p {
            assert(t[j] == sets[j]);
        } else if j < p {
            assert(t[j] == sets[j] && t[k] == sets[k - 1]);
        } else if j == p {
            assert(t[k] == sets[k - 1]);
        } else {
            assert(t[j] == sets[j - 1] && t[k] == sets[k - 1]);
        }
    }
    assert(listed(t, s.hash));
    assert forall|h: Seq<char>| listed(sets, h) implies #[trigger] listed(t, h) by {
        let k = choose|k: int| 0 <= k < sets.len() && (#[trigger] sets[k]).hash == h;
        if k < p {
            assert(t[k].hash == h);
        } else {
            assert(t[k + 1] == sets[k]);
            assert(t[k + 1].hash == h);
        }
    }
}

fn is_listed(sets: &Vec<DuplicateSet>, hash: &String) -> (found: bool)
    ensures
        found == listed(set_views(sets@), hash@),
{
    let mut k: usize = 0;
    while k < sets.len()
        invariant
            k <= sets.len(),
            forall|j: int| 0 <= j < k ==> (#[trigger] set_views(sets@)[j]).hash != hash@,
        decreases sets.len() - k,
    {
        if sets[k].hash == *hash {
            assert(set_views(sets@)[k as int].hash == hash@);
            return true;
        }
        k += 1;
    }
    false
}

fn gather(records: &Vec<FileRecord>, hash: &String) -> (group: Vec<FileRecord>)
    ensures
        record_views(group@) == with_hash(record_views(records@), hash@),
{
    let mut group: Vec<FileRecord> = Vec::new();
    let mut j: usize = 0;
    proof {
        reveal(Seq::filter);
        assert(record_views(records@).take(0) =~= Seq::<FileRecordView>::empty());
        assert(record_views(group@) =~= Seq::<FileRecordView>::empty());
    }
    while j < records.len()
        invariant
            j <= records.len(),
            record_views(group@) == with_hash(record_views(records@).take(j as int), hash@),
        decreases records.len() - j,
    {
        let ghost before = record_views(group@);
        let r = &records[j];
        if r.has_hash(hash) {
            group.push(r.duplicate());
            assert(record_views(group@) =~= before.push(r@));
        }
        proof {
            let all = record_views(records@);
            assert(all[j as int] == r@);
            assert(all.take(j + 1) =~= all.take(j as int).push(all[j as int]));
            all.take(j as int).lemma_filter_push(all[j as int], has_hash(hash@));
        }
        j += 1;
    }
    assert(record_views(records@).take(records@.len() as int) =~= record_views(records@));
    group
}

fn rank_position(sets: &Vec<DuplicateSet>, size: usize, hash: &str) -> (p: usize)
    requires
        is_ascii(hash),
    ensures
        p <= sets@.len(),
        forall|k: int|
            0 <= k < p ==> rank_lt(
                (#[trigger] set_views(sets@)[k]).records.len(),
                set_views(sets@)[k].hash,
                size as nat,
                hash@,
            ),
        p < sets@.len() ==> !rank_lt(
            set_views(sets@)[p as int].records.len(),
            set_views(sets@)[p as int].hash,
            size as nat,
            hash@,
        ),
{
    let mut p: usize = 0;
    while p < sets.len()
        invariant
            p <= sets@.len(),
            is_ascii(hash),
            forall|k: int|
                0 <= k < p ==> rank_lt(
                    (#[trigger] set_views(sets@)[k]).records.len(),
                    set_views(sets@)[k].hash,
                    size as nat,
                    hash@,
                ),
        decreases sets.len() - p,
    {
        let other = &sets[p];
        let n = other.len();
        let before = n > size || (n == size && precedes(other.hash(), hash));
        assert(set_views(sets@)[p as int] == other@);
        if !before {
            return p;
        }
        p += 1;
    }
    p
}

/// The duplicate sets of `records`: for each fingerprint that at least two
/// records share, the set of exactly those records, in the order of
/// `records`. The larger set comes first; sets of one size come in the
/// order of their fingerprints.
pub fn resolve_duplicates(records: &Vec<FileRecord>) -> (sets: Vec<DuplicateSet>)
    ensures
        is_resolution(record_views(records@), set_views(sets@)),
{
    let mut sets: Vec<DuplicateSet> = Vec::new();
    let mut i: usize = 0;
    while i < records.len()
        invariant
            i <= records.len(),
            grouped(record_views(records@), set_views(sets@)),
            ranked(set_views(sets@)),
            covers(record_views(records@), set_views(sets@), i as int),
        decreases records.len() - i,
    {
        let ghost all = record_views(records@);
        let ghost before = set_views(sets@);
        let hash = records[i].hash_owned();
        assert(all[i as int].hash == hash@);
        if !is_listed(&sets, &hash) {
            let group = gather(records, &hash);
            if group.len() >= 2 {
                proof {
                    lemma_hex_digest_is_ascii(hash@);
                }
                let p = rank_position(&sets, group.len(), hash.as_str());
                let set = DuplicateSet { hash, records: group };
                let ghost s = set@;
                sets.insert(p, set);
                proof {
                    assert(set_views(sets@) =~= before.insert(p as int, s));
                    lemma_insert_keeps_resolution(all, before, p as int, s);
                }
            }
        }
        proof {
            let now = set_views(sets@);
            assert forall|h: Seq<char>| listed(before, h) implies #[trigger] listed(now, h) by {}
            assert forall|j: int|
                0 <= j < i + 1 && j < all.len() && is_duplicated(
                    all,
                    (#[trigger] all[j]).hash,
                ) implies listed(now, all[j].hash) by {
                if j < i {
                    assert(listed(before, all[j].hash));
                }
            }
        }
        i += 1;
    }
    sets
}

/// No set is reported before itself, and of two sets at most one is
/// reported before the other.
pub proof fn lemma_rank_lt_asymmetric(size_a: nat, hash_a: Seq<char>, size_b: nat, hash_b: Seq<char>)
    requires
        rank_lt(size_a, hash_a, size_b, hash_b),
    ensures
        !rank_lt(size_b, hash_b, size_a, hash_a),
{
    if size_a == size_b {
        lemma_lex_lt_asymmetric(hash_a, hash_b);
    }
}

/// Whether every set of `a` is a set of `b`.
pub open spec fn members_of(a: Seq<DuplicateSetView>, b: Seq<DuplicateSetView>) -> bool {
    forall|i: int| 0 <= i < a.len() ==> b.contains(#[trigger] a[i])
}

proof fn lemma_ranked_lists_with_same_members_are_equal(
    a: Seq<DuplicateSetView>,
    b: Seq<DuplicateSetView>,
)
    requires
        ranked(a),
        ranked(b),
        members_of(a, b),
        members_of(b, a),
    ensures
        a == b,
    decreases a.len(),
{
    if a.len() == 0 {
        if b.len() > 0 {
            assert(a.contains(b[0]));
        }
        assert(a =~= b);
    } else {
        assert(b.contains(a[0]));
        let j = choose|j: int| 0 <= j < b.len() && b[j] == a[0];
        assert(a.contains(b[0]));
        let i = choose|i: int| 0 <= i < a.len() && a[i] == b[0];
        if j > 0 {
            assert(ranks_before(b[0], b[j]));
            lemma_rank_lt_asymmetric(b[0].records.len(), b[0].hash, b[j].records.len(), b[j].hash);
            if i > 0 {
                assert(ranks_before(a[0], a[i]));
            }
        }
        assert(a[0] == b[0]);
        let ra = a.drop_first();
        let rb = b.drop_first();
        assert forall|x: int, y: int| 0 <= x < y < ra.len() implies ranks_before(
            #[trigger] ra[x],
            #[trigger] ra[y],
        ) by {
            assert(ra[x] == a[x + 1] && ra[y] == a[y + 1]);
        }
        assert forall|x: int, y: int| 0 <= x < y < rb.len() implies ranks_before(
            #[trigger] rb[x],
            #[trigger] rb[y],
        ) by {
            assert(rb[x] == b[x + 1] && rb[y] == b[y + 1]);
        }
        assert forall|x: int| 0 <= x < ra.len() implies rb.contains(#[trigger] ra[x]) by {
            assert(ra[x] == a[x + 1]);
            assert(b.contains(a[x + 1]));
            let y = choose|y: int| 0 <= y < b.len() && b[y] == a[x + 1];
            assert(ranks_before(a[0], a[x + 1]));
            lemma_rank_lt_asymmetric(
                a[0].records.len(),
                a[0].hash,
                a[x + 1].records.len(),
                a[x + 1].hash,
            );
            assert(y > 0);
            assert(rb[y - 1] == b[y]);
        }
        assert forall|x: int| 0 <= x < rb.len() implies ra.contains(#[trigger] rb[x]) by {
            assert(rb[x] == b[x + 1]);
            assert(a.contains(b[x + 1]));
            let y = choose|y: int| 0 <= y < a.len() && a[y] == b[x + 1];
            assert(ranks_before(b[0], b[x + 1]));
            lemma_rank_lt_asymmetric(
                b[0].records.len(),
                b[0].hash,
                b[x + 1].records.len(),
                b[x + 1].hash,
            );
            assert(y > 0);
            assert(ra[y - 1] == a[y]);
        }
        lemma_ranked_lists_with_same_members_are_equal(ra, rb);
        assert(a =~= seq![a[0]] + ra);
        assert(b =~= seq![b[0]] + rb);
    }
}

proof fn lemma_sets_of_one_resolution_are_in_another(
    records: Seq<FileRecordView>,
    a: Seq<DuplicateSetView>,
    b: Seq<DuplicateSetView>,
)
    requires
        is_resolution(records, a),
        is_resolution(records, b),
    ensures
        members_of(a, b),
{
    assert forall|i: int| 0 <= i < a.len() implies b.contains(#[trigger] a[i]) by {
        let h = a[i].hash;
        let group = with_hash(records, h);
        assert(a[i].records == group);
        let first = group[0];
        assert(group.contains(first));
        records.lemma_filter_contains_rev(has_hash(h), first);
        records.lemma_filter_pred(has_hash(h), 0);
        let r = choose|r: int| 0 <= r < records.len() && records[r] == first;
        assert(records[r].hash == h);
        assert(listed(b, records[r].hash));
        let k = choose|k: int| 0 <= k < b.len() && (#[trigger] b[k]).hash == h;
        assert(b[k].records == group);
        assert(b[k] == a[i]);
    }
}

/// The records decide their duplicate sets: two lists that both are the
/// resolution of the same records are equal.
pub proof fn lemma_resolution_is_unique(
    records: Seq<FileRecordView>,
    a: Seq<DuplicateSetView>,
    b: Seq<DuplicateSetView>,
)
    requires
        is_resolution(records, a),
        is_resolution(records, b),
    ensures
        a == b,
{
    lemma_sets_of_one_resolution_are_in_another(records, a, b);
    lemma_sets_of_one_resolution_are_in_another(records, b, a);
    lemma_ranked_lists_with_same_members_are_equal(a, b);
}

/// A record whose fingerprint no other record shares is in no duplicate
/// set.
pub proof fn lemma_unshared_record_is_in_no_set(
    records: Seq<FileRecordView>,
    sets: Seq<DuplicateSetView>,
    i: int,
    k: int,
)
    requires
        is_resolution(records, sets),
        0 <= i < records.len(),
        0 <= k < sets.len(),
        !is_duplicated(records, records[i].hash),
    ensures
        !sets[k].records.contains(records[i]),
{
    let group = with_hash(records, sets[k].hash);
    assert(sets[k].records == group);
    if group.contains(records[i]) {
        let x = choose|x: int| 0 <= x < group.len() && group[x] == records[i];
        records.lemma_filter_pred(has_hash(sets[k].hash), x);
        assert(records[i].hash == sets[k].hash);
    }
}

/// After a second scan of an unchanged tree the store lists every record
/// twice. Then every record's fingerprint has its duplicate set, and the
/// set holds the records of that fingerprint from the first scan followed
/// by those from the second.
pub proof fn lemma_rescan_groups_both_scans(
    records: Seq<FileRecordView>,
    sets: Seq<DuplicateSetView>,
    i: int,
)
    requires
        is_resolution(records + records, sets),
        0 <= i < records.len(),
    ensures
        exists|k: int|
            0 <= k < sets.len() && (#[trigger] sets[k]).hash == records[i].hash && sets[k].records
                == with_hash(records, records[i].hash) + with_hash(records, records[i].hash),
{
    let h = records[i].hash;
    let twice = records + records;
    Seq::filter_distributes_over_add(records, records, has_hash(h));
    assert(with_hash(twice, h) == with_hash(records, h) + with_hash(records, h));
    records.lemma_filter_contains(has_hash(h), i);
    assert(with_hash(records, h).len() >= 1);
    assert(twice[i] == records[i]);
    assert(is_duplicated(twice, twice[i].hash));
    assert(listed(sets, twice[i].hash));
    let k = choose|k: int| 0 <= k < sets.len() && (#[trigger] sets[k]).hash == h;
    assert(sets[k].records == with_hash(twice, sets[k].hash));
}

} // verus!
