//! The order in which the resolvo dependency provider offers candidates:
//! binary builds before embedded stubs before source builds, newer versions
//! first, then by build key; global var values by name and value.

use vstd::prelude::*;
use vstd::utf8::{encode_utf8, encode_utf8_decode_utf8};
use std::cmp::Ordering;

verus! {

/// The kind of build that a candidate is, as far as its place in the order
/// goes.
#[derive(Clone, Copy, Debug, PartialEq, Eq, Structural)]
pub enum BuildClass {
    Source,
    Embedded,
    Binary,
}

/// A build candidate described by what orders it. The ranks are positions
/// in the orders of versions, of build keys and of located build idents:
/// a higher rank is a greater value. `key_rank` is `None` for a build whose
/// package could not be read.
#[derive(Clone, Copy, Debug)]
pub struct SortBuild {
    pub class: BuildClass,
    pub version_rank: u64,
    pub key_rank: Option<u64>,
    pub ident_rank: u64,
}

/// A solvable described by what orders it.
#[derive(Clone, Debug)]
pub enum SortRecord {
    Build(SortBuild),
    GlobalVar { key: String, value: String },
}

/// Three-way comparison of byte strings in lexicographic order: -1, 0 or 1.
pub open spec fn bytes_order(a: Seq<u8>, b: Seq<u8>) -> int
    decreases a.len(),
{
    if a.len() == 0 {
        if b.len() == 0 { 0 } else { -1 }
    } else if b.len() == 0 {
        1
    } else if a[0] < b[0] {
        -1
    } else if a[0] > b[0] {
        1
    } else {
        bytes_order(a.drop_first(), b.drop_first())
    }
}

/// Three-way comparison of texts as Rust orders `str`: by their UTF-8 bytes.
pub open spec fn text_order(a: Seq<char>, b: Seq<char>) -> int {
    bytes_order(encode_utf8(a), encode_utf8(b))
}

/// Three-way comparison of unsigned values.
pub open spec fn int_order(a: int, b: int) -> int {
    if a < b { -1 } else if a > b { 1 } else { 0 }
}

/// The order of two build candidates: source builds last, then embedded
/// stubs last, then higher versions first, then higher build keys first
/// (builds with a key before those without), then by ident.
pub open spec fn build_order(a: SortBuild, b: SortBuild) -> int {
    let a_src = a.class == BuildClass::Source;
    let b_src = b.class == BuildClass::Source;
    let a_emb = a.class == BuildClass::Embedded;
    let b_emb = b.class == BuildClass::Embedded;
    if a_src && !b_src {
        1
    } else if !a_src && b_src {
        -1
    } else if a_emb && !b_emb {
        1
    } else if !a_emb && b_emb {
        -1
    } else if a.version_rank != b.version_rank {
        int_order(b.version_rank as int, a.version_rank as int)
    } else {
        match (a.key_rank, b.key_rank) {
            (Some(ka), Some(kb)) => int_order(kb as int, ka as int),
            (Some(_), None) => -1,
            (None, Some(_)) => 1,
            (None, None) => int_order(a.ident_rank as int, b.ident_rank as int),
        }
    }
}

/// Binary builds come before embedded stubs, and both before source
/// builds.
pub proof fn lemma_stubs_and_sources_last(a: SortBuild, b: SortBuild)
    ensures
        a.class == BuildClass::Binary && b.class == BuildClass::Embedded ==> build_order(a, b) == -1,
        a.class != BuildClass::Source && b.class == BuildClass::Source ==> build_order(a, b) == -1,
{
}

/// Of two builds of the same kind (both binary, both embedded stubs or
/// both source builds), the one of the higher version is offered first.
pub proof fn lemma_higher_version_first(a: SortBuild, b: SortBuild)
    requires
        a.class == b.class,
        a.version_rank > b.version_rank,
    ensures
        build_order(a, b) < 0,
        build_order(b, a) > 0,
{
}

/// Of two builds of the same kind and version, one with a build key comes
/// before one without, and of two with keys the higher key comes first.
pub proof fn lemma_higher_build_key_first(a: SortBuild, b: SortBuild)
    requires
        a.class == b.class,
        a.version_rank == b.version_rank,
    ensures
        a.key_rank is Some && b.key_rank is None ==> build_order(a, b) < 0,
        a.key_rank matches Some(ka) && b.key_rank matches Some(kb) && ka > kb ==> build_order(a, b) < 0,
{
}

/// The order of two solvables: builds before global var values; values of
/// one var by their value, different vars by name.
pub open spec fn solvable_order(a: SortRecord, b: SortRecord) -> int {
    match (a, b) {
        (SortRecord::Build(x), SortRecord::Build(y)) => build_order(x, y),
        (SortRecord::GlobalVar { key: k1, value: v1 }, SortRecord::GlobalVar { key: k2, value: v2 }) => {
            if k1@ == k2@ {
                text_order(v1@, v2@)
            } else {
                text_order(k1@, k2@)
            }
        },
        (SortRecord::Build(_), SortRecord::GlobalVar { .. }) => -1,
        (SortRecord::GlobalVar { .. }, SortRecord::Build(_)) => 1,
    }
}

/// Byte string order is antisymmetric, is 0 exactly on equal strings, and
/// gives -1, 0 or 1.
pub proof fn lemma_bytes_order_props(a: Seq<u8>, b: Seq<u8>)
    ensures
        bytes_order(a, b) == -bytes_order(b, a),
        bytes_order(a, b) == 0 <==> a == b,
        -1 <= bytes_order(a, b) <= 1,
    decreases a.len(),
{
    if a.len() > 0 && b.len() > 0 {
        if a[0] == b[0] {
            lemma_bytes_order_props(a.drop_first(), b.drop_first());
            if a.drop_first() == b.drop_first() {
                assert(a =~= seq![a[0]] + a.drop_first());
                assert(b =~= seq![b[0]] + b.drop_first());
                assert(a =~= b);
            }
            if a == b {
                assert(a.drop_first() =~= b.drop_first());
            }
        } else {
            assert(a[0] != b[0]);
        }
    } else if a.len() != b.len() {
        assert(a != b);
    } else {
        assert(a =~= b);
    }
}

/// Byte string order is transitive.
pub proof fn lemma_bytes_order_transitive(a: Seq<u8>, b: Seq<u8>, c: Seq<u8>)
    requires
        bytes_order(a, b) <= 0,
        bytes_order(b, c) <= 0,
    ensures
        bytes_order(a, c) <= 0,
    decreases a.len(),
{
    if a.len() > 0 && b.len() > 0 && c.len() > 0 && a[0] == b[0] && b[0] == c[0] {
        lemma_bytes_order_transitive(a.drop_first(), b.drop_first(), c.drop_first());
    }
}

/// Text order is antisymmetric, is 0 exactly on equal texts, and gives
/// -1, 0 or 1.
pub proof fn lemma_text_order_props(a: Seq<char>, b: Seq<char>)
    ensures
        text_order(a, b) == -text_order(b, a),
        text_order(a, b) == 0 <==> a == b,
        -1 <= text_order(a, b) <= 1,
{
    lemma_bytes_order_props(encode_utf8(a), encode_utf8(b));
    encode_utf8_decode_utf8(a);
    encode_utf8_decode_utf8(b);
}

/// The candidate order is antisymmetric: swapping the two candidates
/// reverses the verdict.
pub proof fn lemma_solvable_order_antisymmetric(a: SortRecord, b: SortRecord)
    ensures
        solvable_order(a, b) == -solvable_order(b, a),
        -1 <= solvable_order(a, b) <= 1,
{
    match (a, b) {
        (SortRecord::GlobalVar { key: k1, value: v1 }, SortRecord::GlobalVar { key: k2, value: v2 }) => {
            lemma_text_order_props(v1@, v2@);
            lemma_text_order_props(k1@, k2@);
        },
        _ => {},
    }
}

/// The candidate order is transitive: it orders any three candidates
/// consistently.
pub proof fn lemma_solvable_order_transitive(a: SortRecord, b: SortRecord, c: SortRecord)
    requires
        solvable_order(a, b) <= 0,
        solvable_order(b, c) <= 0,
    ensures
        solvable_order(a, c) <= 0,
{
    match (a, b, c) {
        (
            SortRecord::GlobalVar { key: k1, value: v1 },
            SortRecord::GlobalVar { key: k2, value: v2 },
            SortRecord::GlobalVar { key: k3, value: v3 },
        ) => {
            lemma_text_order_props(k1@, k2@);
            lemma_text_order_props(k2@, k3@);
            lemma_text_order_props(k1@, k3@);
            lemma_text_order_props(v1@, v2@);
            lemma_text_order_props(v2@, v3@);
            lemma_text_order_props(v1@, v3@);
            if k1@ == k2@ && k2@ == k3@ {
                lemma_bytes_order_transitive(encode_utf8(v1@), encode_utf8(v2@), encode_utf8(v3@));
            } else if k1@ == k2@ {
                assert(k1@ != k3@);
            } else if k2@ == k3@ {
                assert(k1@ != k3@);
            } else {
                lemma_bytes_order_transitive(encode_utf8(k1@), encode_utf8(k2@), encode_utf8(k3@));
                if k1@ == k3@ {
                    assert(text_order(k1@, k2@) <= 0 && text_order(k2@, k1@) <= 0);
                }
            }
        },
        _ => {},
    }
}

/// Sorted by the candidate order: no candidate comes after one it should
/// precede.
pub open spec fn sorted_by_candidate_order(recs: Seq<SortRecord>, order: Seq<usize>) -> bool {
    forall|i: int, j: int|
        0 <= i < j < order.len() ==> solvable_order(recs[order[i] as int], recs[order[j] as int]) <= 0
}

/// Candidates that compare equal keep the order of their indices.
pub open spec fn keeps_ties_in_order(recs: Seq<SortRecord>, order: Seq<usize>) -> bool {
    forall|i: int, j: int|
        0 <= i < j < order.len() && solvable_order(recs[order[i] as int], recs[order[j] as int]) == 0
            ==> order[i] < order[j]
}

/// `order` lists each index below `n` exactly once.
pub open spec fn is_index_permutation(order: Seq<usize>, n: int) -> bool {
    &&& order.len() == n
    &&& order.no_duplicates()
    &&& forall|i: int| 0 <= i < order.len() ==> order[i] < n
}

fn compare_bytes(a: &[u8], b: &[u8]) -> (r: i8)
    ensures
        r as int == bytes_order(a@, b@),
{
    let mut i: usize = 0;
    assert(a@.skip(0) =~= a@);
    assert(b@.skip(0) =~= b@);
    while i < a.len() && i < b.len() && a[i] == b[i]
        invariant
            0 <= i <= a@.len(),
            i <= b@.len(),
            bytes_order(a@, b@) == bytes_order(a@.skip(i as int), b@.skip(i as int)),
        decreases a@.len() - i,
    {
        assert(a@.skip(i as int).drop_first() =~= a@.skip(i + 1));
        assert(b@.skip(i as int).drop_first() =~= b@.skip(i + 1));
        i = i + 1;
    }
    if i == a.len() && i == b.len() {
        0
    } else if i == a.len() {
        -1
    } else if i == b.len() {
        1
    } else if a[i] < b[i] {
        -1
    } else {
        1
    }
}

pub(crate) fn compare_text(a: &String, b: &String) -> (r: i8)
    ensures
        r as int == text_order(a@, b@),
{
    let sa = a.as_str();
    let sb = b.as_str();
    compare_bytes(sa.as_bytes(), sb.as_bytes())
}

fn compare_u64(a: u64, b: u64) -> (r: i8)
    ensures
        r as int == int_order(a as int, b as int),
{
    if a < b { -1 } else if a > b { 1 } else { 0 }
}

fn compare_builds(a: &SortBuild, b: &SortBuild) -> (r: i8)
    ensures
        r as int == build_order(*a, *b),
{
    let a_src = a.class == BuildClass::Source;
    let b_src = b.class == BuildClass::Source;
    let a_emb = a.class == BuildClass::Embedded;
    let b_emb = b.class == BuildClass::Embedded;
    if a_src && !b_src {
        1
    } else if !a_src && b_src {
        -1
    } else if a_emb && !b_emb {
        1
    } else if !a_emb && b_emb {
        -1
    } else if a.version_rank != b.version_rank {
        compare_u64(b.version_rank, a.version_rank)
    } else {
        match (a.key_rank, b.key_rank) {
            (Some(ka), Some(kb)) => compare_u64(kb, ka),
            (Some(_), None) => -1,
            (None, Some(_)) => 1,
            (None, None) => compare_u64(a.ident_rank, b.ident_rank),
        }
    }
}

/// Three-way comparison of two solvables in candidate order: -1, 0 or 1.
pub fn solvable_sign(a: &SortRecord, b: &SortRecord) -> (r: i8)
    ensures
        r as int == solvable_order(*a, *b),
{
    match (a, b) {
        (SortRecord::Build(x), SortRecord::Build(y)) => compare_builds(x, y),
        (SortRecord::GlobalVar { key: k1, value: v1 }, SortRecord::GlobalVar { key: k2, value: v2 }) => {
            if *k1 == *k2 {
                compare_text(v1, v2)
            } else {
                compare_text(k1, k2)
            }
        },
        (SortRecord::Build(_), SortRecord::GlobalVar { .. }) => -1,
        (SortRecord::GlobalVar { .. }, SortRecord::Build(_)) => 1,
    }
}

/// The `Ordering` that a three-way comparison result stands for.
pub open spec fn ordering_of(c: int) -> Ordering {
    if c < 0 {
        Ordering::Less
    } else if c > 0 {
        Ordering::Greater
    } else {
        Ordering::Equal
    }
}

/// Order two solvables the way candidates are offered to the solver.
pub fn compare_solvables(a: &SortRecord, b: &SortRecord) -> (r: Ordering)
    ensures
        r == ordering_of(solvable_order(*a, *b)),
{
    let s = solvable_sign(a, b);
    if s < 0 {
        Ordering::Less
    } else if s > 0 {
        Ordering::Greater
    } else {
        Ordering::Equal
    }
}

/// In a sorted order of candidates, of two builds of the same kind the one
/// of the higher version comes first: the solver tries the highest version
/// first.
pub proof fn lemma_sorted_higher_version_first(
    records: Seq<SortRecord>,
    order: Seq<usize>,
    i: int,
    j: int,
    x: SortBuild,
    y: SortBuild,
)
    requires
        sorted_by_candidate_order(records, order),
        0 <= i < order.len(),
        0 <= j < order.len(),
        records[order[i] as int] == SortRecord::Build(x),
        records[order[j] as int] == SortRecord::Build(y),
        x.class == y.class,
        x.version_rank > y.version_rank,
    ensures
        i < j,
{
    lemma_higher_version_first(x, y);
    if j < i {
        assert(solvable_order(records[order[j] as int], records[order[i] as int]) <= 0);
        assert(false);
    }
    if i == j {
        assert(false);
    }
}

/// Sort candidates into the order in which they are offered to the solver.
/// The result lists the indices of `records` once each, in that order;
/// candidates that compare equal keep their relative order.
pub fn sort_solvables(records: &Vec<SortRecord>) -> (order: Vec<usize>)
    ensures
        is_index_permutation(order@, records@.len() as int),
        sorted_by_candidate_order(records@, order@),
        keeps_ties_in_order(records@, order@),
{
    let mut order: Vec<usize> = Vec::new();
    let mut i: usize = 0;
    while i < records.len()
        invariant
            0 <= i <= records@.len(),
            is_index_permutation(order@, i as int),
            sorted_by_candidate_order(records@, order@),
            keeps_ties_in_order(records@, order@),
        decreases records@.len() - i,
    {
        let mut j: usize = 0;
        while j < order.len() && solvable_sign(&records[i], &records[order[j]]) >= 0
            invariant
                0 <= i < records@.len(),
                0 <= j <= order@.len(),
                is_index_permutation(order@, i as int),
                forall|k: int| 0 <= k < j ==>
                    solvable_order(records@[i as int], records@[#[trigger] order@[k] as int]) >= 0,
            decreases order@.len() - j,
        {
            j = j + 1;
        }
        let ghost old_order = order@;
        proof {
            old_order.insert_ensures(j as int, i);
            assert forall|k: int| 0 <= k < j implies
                solvable_order(records@[#[trigger] old_order[k] as int], records@[i as int]) <= 0 by {
                lemma_solvable_order_antisymmetric(records@[old_order[k] as int], records@[i as int]);
            }
            if j < old_order.len() {
                lemma_solvable_order_antisymmetric(records@[i as int], records@[old_order[j as int] as int]);
            }
        }
        order.insert(j, i);
        proof {
            let n = order@;
            assert(n.len() == i + 1);
            assert forall|k: int| 0 <= k < n.len() implies n[k] < i + 1 by {
                if k < j {
                } else if k == j {
                } else {
                    assert(n[k] == old_order[k - 1]);
                }
            }
            assert forall|a: int, b: int| 0 <= a < n.len() && 0 <= b < n.len() && a != b implies
                n[a] != n[b] by {
                if a != j && b != j {
                    let oa = if a < j { a } else { a - 1 };
                    let ob = if b < j { b } else { b - 1 };
                    assert(n[a] == old_order[oa]);
                    assert(n[b] == old_order[ob]);
                }
            }
            assert(n.no_duplicates());
            assert forall|a: int, b: int| 0 <= a < b < n.len() implies
                solvable_order(records@[n[a] as int], records@[n[b] as int]) <= 0 by {
                if a < j && b < j {
                } else if a < j && b == j {
                } else if a < j {
                    assert(n[b] == old_order[b - 1]);
                } else if a == j {
                    assert(n[b] == old_order[b - 1]);
                    // x < old_order[j] <= old_order[b - 1]
                    if b - 1 > j {
                        lemma_solvable_order_transitive(
                            records@[i as int],
                            records@[old_order[j as int] as int],
                            records@[old_order[b - 1] as int],
                        );
                    }
                } else {
                    assert(n[a] == old_order[a - 1]);
                    assert(n[b] == old_order[b - 1]);
                }
            }
            assert forall|a: int, b: int|
                0 <= a < b < n.len() && solvable_order(records@[n[a] as int], records@[n[b] as int]) == 0
                    implies n[a] < n[b] by {
                if a < j && b < j {
                } else if a < j && b == j {
                } else if a < j {
                    assert(n[b] == old_order[b - 1]);
                } else if a == j {
                    assert(n[b] == old_order[b - 1]);
                    let x = records@[i as int];
                    let y = records@[old_order[j as int] as int];
                    let z = records@[old_order[b - 1] as int];
                    assert(solvable_order(x, y) < 0);
                    if b - 1 > j {
                        assert(solvable_order(y, z) <= 0);
                        lemma_solvable_order_antisymmetric(x, z);
                        lemma_solvable_order_transitive(y, z, x);
                        lemma_solvable_order_antisymmetric(y, x);
                    }
                } else {
                    assert(n[a] == old_order[a - 1]);
                    assert(n[b] == old_order[b - 1]);
                }
            }
        }
        i = i + 1;
    }
    order
}

} // verus!
