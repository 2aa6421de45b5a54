//! Frequency counts that a step solve keeps of the errors it hits and of the
//! packages that block it.

use vstd::prelude::*;
use crate::text::{decimal, join, push_decimal, push_text, texts, join_strings};

verus! {

/// The details of a 'could not satisfy' error
#[derive(Clone, Debug)]
pub struct CouldNotSatisfyRecord {
    /// The unique set of requesters involved in all instances of the error
    pub requesters: Vec<String>,
    /// The requesters from the first occurrence of the error
    pub first_example: Vec<String>,
}

/// Frequency counter for solver internal errors
#[derive(Clone, Debug)]
pub struct ErrorFreq {
    pub counter: u64,
    /// Extra data for 'could not satisfy' error messages
    pub record: Option<CouldNotSatisfyRecord>,
}

/// The kinds of internal error encountered during a solve that are tracked
/// for frequency. Requesters are given by their display text.
#[derive(Clone, Debug)]
pub enum ErrorDetails {
    Message(String),
    CouldNotSatisfy(String, Vec<String>),
}

/// True when some string in `s` has the text `t`.
pub open spec fn has_text(s: Seq<String>, t: Seq<char>) -> bool {
    exists|i: int| 0 <= i < s.len() && (#[trigger] s[i])@ == t
}

/// The number of requesters that are not among the first example's.
pub open spec fn count_others(requesters: Seq<String>, first: Seq<String>) -> nat
    decreases requesters.len(),
{
    if requesters.len() == 0 {
        0
    } else {
        count_others(requesters.drop_last(), first) + if has_text(first, requesters.last()@) {
            0nat
        } else {
            1nat
        }
    }
}

/// The combined message of an error stored under `key`.
pub open spec fn error_message(key: Seq<char>, f: ErrorFreq) -> Seq<char> {
    match f.record {
        None => key,
        Some(r) => {
            let base = "could not satisfy '"@ + key + "' as required by: "@ + join(
                texts(r.first_example@),
                ", "@,
            );
            let n = count_others(r.requesters@, r.first_example@);
            if n > 0 {
                base + " and "@ + decimal(n) + " "@ + if n > 1 {
                    "others"@
                } else {
                    "other"@
                }
            } else {
                base
            }
        },
    }
}

fn contains_text(s: &Vec<String>, t: &String) -> (r: bool)
    ensures
        r == has_text(s@, t@),
{
    let mut i: usize = 0;
    while i < s.len()
        invariant
            0 <= i <= s@.len(),
            forall|j: int| 0 <= j < i ==> (#[trigger] s@[j])@ != t@,
        decreases s@.len() - i,
    {
        if s[i] == *t {
            return true;
        }
        i = i + 1;
    }
    false
}

fn count_others_exec(requesters: &Vec<String>, first: &Vec<String>) -> (n: u64)
    requires
        requesters@.len() <= u64::MAX,
    ensures
        n as nat == count_others(requesters@, first@),
{
    let mut n: u64 = 0;
    let mut i: usize = 0;
    while i < requesters.len()
        invariant
            requesters@.len() <= u64::MAX,
            0 <= i <= requesters@.len(),
            n as nat == count_others(requesters@.take(i as int), first@),
            n <= i,
        decreases requesters@.len() - i,
    {
        proof {
            assert(requesters@.take(i + 1).drop_last() =~= requesters@.take(i as int));
        }
        if !contains_text(first, &requesters[i]) {
            n = n + 1;
        }
        i = i + 1;
    }
    proof {
        assert(requesters@.take(requesters@.len() as int) =~= requesters@);
    }
    n
}

impl ErrorFreq {
    /// Given the key under which the this error is stored in the
    /// solver, generate the combined message of the error.
    pub fn get_message(&self, error_key: String) -> (r: String)
        requires
            self.record matches Some(rec) ==> rec.requesters@.len() <= u64::MAX,
        ensures
            r@ == error_message(error_key@, *self),
    {
        match &self.record {
            Some(rec) => {
                let mut message = String::new();
                push_text(&mut message, "could not satisfy '");
                push_text(&mut message, error_key.as_str());
                push_text(&mut message, "' as required by: ");
                let joined = join_strings(&rec.first_example, ", ");
                push_text(&mut message, joined.as_str());
                let num_others = count_others_exec(&rec.requesters, &rec.first_example);
                if num_others > 0 {
                    push_text(&mut message, " and ");
                    push_decimal(&mut message, num_others);
                    push_text(&mut message, " ");
                    if num_others > 1 {
                        push_text(&mut message, "others");
                    } else {
                        push_text(&mut message, "other");
                    }
                }
                message
            },
            None => error_key,
        }
    }
}

/// The position of the last entry with key `k`, if any.
pub open spec fn find_key<K, V>(e: Seq<(K, V)>, k: K) -> Option<int>
    decreases e.len(),
{
    if e.len() == 0 {
        None
    } else if e.last().0 == k {
        Some(e.len() - 1)
    } else {
        find_key(e.drop_last(), k)
    }
}

/// No key occurs twice in the table.
pub open spec fn keys_unique<K, V>(e: Seq<(K, V)>) -> bool {
    forall|i: int, j: int| 0 <= i < j < e.len() ==> (#[trigger] e[i]).0 != (#[trigger] e[j]).0
}

/// Changing the value of an entry keeps the keys of a table unique.
pub proof fn lemma_keys_unique_update<K, V>(e: Seq<(K, V)>, i: int, v: V)
    requires
        keys_unique(e),
        0 <= i < e.len(),
    ensures
        keys_unique(e.update(i, (e[i].0, v))),
{
    let u = e.update(i, (e[i].0, v));
    assert forall|a: int, b: int| 0 <= a < b < u.len() implies (#[trigger] u[a]).0 != (#[trigger] u[b]).0 by {
        assert(u[a].0 == e[a].0);
        assert(u[b].0 == e[b].0);
    }
}

/// Adding an entry for a key the table lacks keeps its keys unique.
pub proof fn lemma_keys_unique_push<K, V>(e: Seq<(K, V)>, k: K, v: V)
    requires
        keys_unique(e),
        find_key(e, k) is None,
    ensures
        keys_unique(e.push((k, v))),
{
    lemma_find_key(e, k);
    let u = e.push((k, v));
    assert forall|a: int, b: int| 0 <= a < b < u.len() implies (#[trigger] u[a]).0 != (#[trigger] u[b]).0 by {
        if b == e.len() {
            assert(u[a] == e[a]);
        } else {
            assert(u[a] == e[a]);
            assert(u[b] == e[b]);
        }
    }
}

/// The facts that a key search gives.
pub proof fn lemma_find_key<K, V>(e: Seq<(K, V)>, k: K)
    ensures
        find_key(e, k) matches Some(i) ==> 0 <= i < e.len() && e[i].0 == k,
        find_key(e, k) is None ==> forall|j: int| 0 <= j < e.len() ==> e[j].0 != k,
    decreases e.len(),
{
    if e.len() > 0 {
        lemma_find_key(e.drop_last(), k);
        if find_key(e, k) is None {
            assert forall|j: int| 0 <= j < e.len() implies #[trigger] e[j].0 != k by {
                if j < e.len() - 1 {
                    assert(e.drop_last()[j] == e[j]);
                }
            }
        }
    }
}

/// A key search finds the last entry with the key: none after it has it.
pub proof fn lemma_find_key_is_last<K, V>(e: Seq<(K, V)>, k: K, i: int)
    requires
        find_key(e, k) == Some(i),
    ensures
        forall|j: int| i < j < e.len() ==> (#[trigger] e[j]).0 != k,
    decreases e.len(),
{
    lemma_find_key(e, k);
    if e.len() > 0 && e.last().0 != k {
        lemma_find_key_is_last(e.drop_last(), k, i);
        assert forall|j: int| i < j < e.len() implies (#[trigger] e[j]).0 != k by {
            if j < e.len() - 1 {
                assert(e.drop_last()[j] == e[j]);
            }
        }
    }
}

/// An entry with the key, after which none has it, is where the search
/// finds the key.
pub proof fn lemma_find_key_at<K, V>(e: Seq<(K, V)>, k: K, i: int)
    requires
        0 <= i < e.len(),
        e[i].0 == k,
        forall|j: int| i < j < e.len() ==> (#[trigger] e[j]).0 != k,
    ensures
        find_key(e, k) == Some(i),
    decreases e.len(),
{
    if i < e.len() - 1 {
        assert forall|j: int| i < j < e.drop_last().len() implies (#[trigger] e.drop_last()[j]).0 != k by {
            assert(e.drop_last()[j] == e[j]);
        }
        lemma_find_key_at(e.drop_last(), k, i);
    }
}

/// A count table by key text.
pub open spec fn count_view(e: Seq<(String, u64)>) -> Seq<(Seq<char>, u64)> {
    e.map_values(|x: (String, u64)| (x.0@, x.1))
}

/// The counts after one more occurrence of `k`: its count goes up by one,
/// or it enters with a count of one.
pub open spec fn bump(e: Seq<(Seq<char>, u64)>, k: Seq<char>) -> Seq<(Seq<char>, u64)> {
    match find_key(e, k) {
        Some(i) => e.update(i, (e[i].0, (e[i].1 + 1) as u64)),
        None => e.push((k, 1u64)),
    }
}

/// Every count of a table is below `bound`.
pub open spec fn counts_below(e: Seq<(Seq<char>, u64)>, bound: int) -> bool {
    forall|i: int| 0 <= i < e.len() ==> (#[trigger] e[i]).1 < bound
}

pub(crate) fn find_count_key(e: &Vec<(String, u64)>, k: &String) -> (r: Option<usize>)
    ensures
        r matches Some(i) ==> find_key(count_view(e@), k@) == Some(i as int),
        r is None ==> find_key(count_view(e@), k@) is None,
{
    let mut i: usize = e.len();
    assert(count_view(e@).take(i as int) =~= count_view(e@));
    while i > 0
        invariant
            0 <= i <= e@.len(),
            find_key(count_view(e@), k@) == find_key(count_view(e@).take(i as int), k@),
        decreases i,
    {
        proof {
            assert(count_view(e@).take(i as int).drop_last() =~= count_view(e@).take(i - 1));
        }
        if e[i - 1].0 == *k {
            return Some(i - 1);
        }
        i = i - 1;
    }
    None
}

/// One more occurrence keeps the keys of a count table unique.
pub proof fn lemma_bump_keeps_keys_unique(e: Seq<(Seq<char>, u64)>, k: Seq<char>)
    ensures
        keys_unique(e) ==> keys_unique(bump(e, k)),
{
    if keys_unique(e) {
        match find_key(e, k) {
            Some(i) => {
                lemma_find_key(e, k);
                lemma_keys_unique_update(e, i, (e[i].1 + 1) as u64);
            },
            None => lemma_keys_unique_push(e, k, 1u64),
        }
    }
}

/// Count one more occurrence of `k` in a frequency table.
pub fn bump_count(e: &mut Vec<(String, u64)>, k: String)
    requires
        counts_below(count_view(old(e)@), u64::MAX as int),
    ensures
        count_view(final(e)@) == bump(count_view(old(e)@), k@),
        keys_unique(count_view(old(e)@)) ==> keys_unique(count_view(final(e)@)),
{
    proof {
        lemma_find_key(count_view(e@), k@);
        lemma_bump_keeps_keys_unique(count_view(e@), k@);
    }
    match find_count_key(e, &k) {
        Some(i) => {
            let name = e[i].0.clone();
            let count = e[i].1;
            e.set(i, (name, count + 1));
            proof {
                assert(count_view(e@) =~= bump(count_view(old(e)@), k@));
            }
        },
        None => {
            e.push((k, 1));
            proof {
                assert(count_view(e@) =~= bump(count_view(old(e)@), k@));
            }
        },
    }
}

/// One more occurrence raises no count above `bound + 1`.
pub proof fn lemma_bump_below(e: Seq<(Seq<char>, u64)>, k: Seq<char>, bound: int)
    requires
        counts_below(e, bound),
        bound >= 1,
    ensures
        counts_below(bump(e, k), bound + 1),
{
    lemma_find_key(e, k);
}

/// What an error table holds of an entry: its count and, for a 'could not
/// satisfy' error, its requesters and first example.
pub open spec fn freq_view(f: ErrorFreq) -> (u64, Option<(Seq<Seq<char>>, Seq<Seq<char>>)>) {
    (
        f.counter,
        match f.record {
            Some(r) => Some((texts(r.requesters@), texts(r.first_example@))),
            None => None,
        },
    )
}

/// An error table by key text.
pub open spec fn error_view(e: Seq<(String, ErrorFreq)>) -> Seq<
    (Seq<char>, (u64, Option<(Seq<Seq<char>>, Seq<Seq<char>>)>)),
> {
    e.map_values(|x: (String, ErrorFreq)| (x.0@, freq_view(x.1)))
}

/// `s` with each text of `new` that it lacks added at the end, once.
pub open spec fn add_new_texts(s: Seq<Seq<char>>, new: Seq<Seq<char>>) -> Seq<Seq<char>>
    decreases new.len(),
{
    if new.len() == 0 {
        s
    } else {
        let prev = add_new_texts(s, new.drop_last());
        if prev.contains(new.last()) {
            prev
        } else {
            prev.push(new.last())
        }
    }
}

/// An error table: each entry's key text, count and, for a 'could not
/// satisfy' error, its requesters and first example.
pub type ErrorTable = Seq<(Seq<char>, (u64, Option<(Seq<Seq<char>>, Seq<Seq<char>>)>))>;

/// The error table after one more occurrence of the plain message `m`.
pub open spec fn record_message(e: ErrorTable, m: Seq<char>) -> ErrorTable {
    match find_key(e, m) {
        Some(i) => e.update(i, (e[i].0, (((e[i].1).0 + 1) as u64, (e[i].1).1))),
        None => e.push((m, (1u64, None))),
    }
}

/// The error table after one more 'could not satisfy' error for the request
/// `key`, with the requesters given by their texts.
pub open spec fn record_blocked(e: ErrorTable, key: Seq<char>, requesters: Seq<Seq<char>>) -> ErrorTable {
    match find_key(e, key) {
        Some(i) => e.update(
            i,
            (
                e[i].0,
                (
                    ((e[i].1).0 + 1) as u64,
                    Some((add_new_texts(((e[i].1).1->0).0, requesters), ((e[i].1).1->0).1)),
                ),
            ),
        ),
        None => e.push((key, (1u64, Some((add_new_texts(Seq::empty(), requesters), requesters))))),
    }
}

/// The error table after one more occurrence of an error.
pub open spec fn record_error(e: ErrorTable, d: ErrorDetails) -> ErrorTable {
    match d {
        ErrorDetails::Message(m) => record_message(e, m@),
        ErrorDetails::CouldNotSatisfy(key, requesters) => record_blocked(e, key@, texts(requesters@)),
    }
}

/// Recording an error keeps the keys of the table unique.
pub proof fn lemma_record_error_keeps_keys_unique(e: ErrorTable, d: ErrorDetails)
    ensures
        keys_unique(e) ==> keys_unique(record_error(e, d)),
{
    if keys_unique(e) {
        let k = match d {
            ErrorDetails::Message(m) => m@,
            ErrorDetails::CouldNotSatisfy(key, _) => key@,
        };
        lemma_find_key(e, k);
        match find_key(e, k) {
            Some(i) => {
                let r = record_error(e, d);
                assert(r == e.update(i, (e[i].0, r[i].1)));
                lemma_keys_unique_update(e, i, r[i].1);
            },
            None => {
                let r = record_error(e, d);
                assert(r == e.push((k, r.last().1)));
                lemma_keys_unique_push(e, k, r.last().1);
            },
        }
    }
}

/// Whether a 'could not satisfy' error for `key` can be recorded: it is
/// never recorded under the key of a plain message.
pub open spec fn blocked_recordable(e: ErrorTable, key: Seq<char>) -> bool {
    match find_key(e, key) {
        Some(i) => (e[i].1).1 is Some,
        None => true,
    }
}

/// Whether `d` can be recorded.
pub open spec fn recordable(e: ErrorTable, d: ErrorDetails) -> bool {
    match d {
        ErrorDetails::Message(_) => true,
        ErrorDetails::CouldNotSatisfy(key, _) => blocked_recordable(e, key@),
    }
}

fn add_requesters(set: &mut Vec<String>, new: &Vec<String>)
    ensures
        texts(final(set)@) == add_new_texts(texts(old(set)@), texts(new@)),
{
    let mut i: usize = 0;
    while i < new.len()
        invariant
            0 <= i <= new@.len(),
            texts(set@) == add_new_texts(texts(old(set)@), texts(new@).take(i as int)),
        decreases new@.len() - i,
    {
        proof {
            assert(texts(new@).take(i + 1).drop_last() =~= texts(new@).take(i as int));
            assert(texts(new@).take(i + 1).last() == new@[i as int]@);
        }
        let present = contains_text(set, &new[i]);
        proof {
            if present {
                let j = choose|j: int| 0 <= j < set@.len() && (#[trigger] set@[j])@ == new@[i as int]@;
                assert(texts(set@)[j] == new@[i as int]@);
            } else {
                assert(!texts(set@).contains(new@[i as int]@)) by {
                    if texts(set@).contains(new@[i as int]@) {
                        let j = choose|j: int| 0 <= j < texts(set@).len() && texts(set@)[j] == new@[i as int]@;
                        assert(set@[j]@ == new@[i as int]@);
                    }
                }
            }
        }
        if !present {
            set.push(new[i].clone());
            proof {
                assert(texts(set@) =~= add_new_texts(texts(old(set)@), texts(new@).take(i + 1)));
            }
        }
        i = i + 1;
    }
    proof {
        assert(texts(new@).take(new@.len() as int) =~= texts(new@));
    }
}

fn find_error_key(e: &Vec<(String, ErrorFreq)>, k: &String) -> (r: Option<usize>)
    ensures
        r matches Some(i) ==> find_key(error_view(e@), k@) == Some(i as int),
        r is None ==> find_key(error_view(e@), k@) is None,
{
    let mut i: usize = e.len();
    assert(error_view(e@).take(i as int) =~= error_view(e@));
    while i > 0
        invariant
            0 <= i <= e@.len(),
            find_key(error_view(e@), k@) == find_key(error_view(e@).take(i as int), k@),
        decreases i,
    {
        proof {
            assert(error_view(e@).take(i as int).drop_last() =~= error_view(e@).take(i - 1));
        }
        if e[i - 1].0 == *k {
            return Some(i - 1);
        }
        i = i - 1;
    }
    None
}

/// Every error count of a table is below `bound`.
pub open spec fn error_counts_below(
    e: Seq<(Seq<char>, (u64, Option<(Seq<Seq<char>>, Seq<Seq<char>>)>))>,
    bound: int,
) -> bool {
    forall|i: int| 0 <= i < e.len() ==> ((#[trigger] e[i]).1).0 < bound
}

/// Count one more occurrence of an error in an error table.
pub fn record_error_in(e: &mut Vec<(String, ErrorFreq)>, details: ErrorDetails)
    requires
        error_counts_below(error_view(old(e)@), u64::MAX as int),
        recordable(error_view(old(e)@), details),
    ensures
        error_view(final(e)@) == record_error(error_view(old(e)@), details),
        keys_unique(error_view(old(e)@)) ==> keys_unique(error_view(final(e)@)),
{
    proof {
        lemma_record_error_keeps_keys_unique(error_view(e@), details);
    }
    let ghost d = details;
    match details {
        ErrorDetails::Message(message) => {
            proof {
                lemma_find_key(error_view(e@), message@);
            }
            match find_error_key(e, &message) {
                Some(i) => {
                    let key = e[i].0.clone();
                    let counter = e[i].1.counter;
                    let record = match &e[i].1.record {
                        Some(r) => Some(
                            CouldNotSatisfyRecord {
                                requesters: r.requesters.clone(),
                                first_example: r.first_example.clone(),
                            },
                        ),
                        None => None,
                    };
                    e.set(i, (key, ErrorFreq { counter: counter + 1, record }));
                    proof {
                        assert(error_view(e@) =~= record_error(error_view(old(e)@), d));
                    }
                },
                None => {
                    e.push((message, ErrorFreq { counter: 1, record: None }));
                    proof {
                        assert(error_view(e@) =~= record_error(error_view(old(e)@), d));
                    }
                },
            }
        },
        ErrorDetails::CouldNotSatisfy(key, requesters) => {
            proof {
                lemma_find_key(error_view(e@), key@);
            }
            match find_error_key(e, &key) {
                Some(i) => {
                    let name = e[i].0.clone();
                    let counter = e[i].1.counter;
                    let (mut set, first) = match &e[i].1.record {
                        Some(r) => (r.requesters.clone(), r.first_example.clone()),
                        None => {
                            proof {
                                assert(false);
                            }
                            (Vec::new(), Vec::new())
                        },
                    };
                    add_requesters(&mut set, &requesters);
                    e.set(
                        i,
                        (
                            name,
                            ErrorFreq {
                                counter: counter + 1,
                                record: Some(CouldNotSatisfyRecord { requesters: set, first_example: first }),
                            },
                        ),
                    );
                    proof {
                        assert(error_view(e@) =~= record_error(error_view(old(e)@), d));
                    }
                },
                None => {
                    let mut set: Vec<String> = Vec::new();
                    add_requesters(&mut set, &requesters);
                    proof {
                        assert(texts(Seq::<String>::empty()) =~= Seq::<Seq<char>>::empty());
                    }
                    e.push(
                        (
                            key,
                            ErrorFreq {
                                counter: 1,
                                record: Some(
                                    CouldNotSatisfyRecord { requesters: set, first_example: requesters },
                                ),
                            },
                        ),
                    );
                    proof {
                        assert(error_view(e@) =~= record_error(error_view(old(e)@), d));
                    }
                },
            }
        },
    }
}

} // verus!
