//! Which build option names go into the keys that order the builds of a
//! package version: the names whose values tell the binary builds apart,
//! the configured names first.

use vstd::prelude::*;
use crate::ordering::{compare_text, lemma_bytes_order_transitive, lemma_text_order_props, text_order};
use vstd::utf8::encode_utf8;
use crate::spec::SpecRecipe;

verus! {

/// A build iterator with no builds.
#[derive(Clone, Copy, Debug)]
pub struct EmptyBuildIterator {}

impl EmptyBuildIterator {
    /// An iterator with no builds.
    pub fn new() -> (r: Self) {
        EmptyBuildIterator {}
    }

    /// It is always empty.
    pub fn is_empty(&self) -> (r: bool)
        ensures
            r,
    {
        true
    }

    /// It is not a sorted build iterator.
    pub fn is_sorted_build_iterator(&self) -> (r: bool)
        ensures
            !r,
    {
        false
    }

    /// It has no recipe.
    pub fn recipe(&self) -> (r: Option<SpecRecipe>)
        ensures
            r is None,
    {
        None
    }

    /// It holds no build.
    pub fn len(&self) -> (r: usize)
        ensures
            r == 0,
    {
        0
    }

    /// There is never a next build.
    pub fn next(&mut self) -> (r: Option<()>)
        ensures
            r is None,
    {
        None
    }
}

/// The option values of one build: whether it is a source build, and its
/// option names and values.
#[derive(Debug)]
pub struct BuildOptions {
    pub is_source: bool,
    pub options: Vec<(String, String)>,
}

/// The option entries of the binary builds, in order.
pub open spec fn option_entries(builds: Seq<BuildOptions>) -> Seq<(Seq<char>, Seq<char>)>
    decreases builds.len(),
{
    if builds.len() == 0 {
        Seq::empty()
    } else {
        option_entries(builds.drop_last()) + if builds.last().is_source {
            Seq::empty()
        } else {
            builds.last().options@.map_values(|o: (String, String)| (o.0@, o.1@))
        }
    }
}

/// The number of binary builds.
pub open spec fn binary_count(builds: Seq<BuildOptions>) -> nat
    decreases builds.len(),
{
    if builds.len() == 0 {
        0
    } else {
        binary_count(builds.drop_last()) + if builds.last().is_source {
            0nat
        } else {
            1nat
        }
    }
}

/// How many entries give a value for the option.
pub open spec fn name_count(e: Seq<(Seq<char>, Seq<char>)>, n: Seq<char>) -> nat
    decreases e.len(),
{
    if e.len() == 0 {
        0
    } else {
        name_count(e.drop_last(), n) + if e.last().0 == n {
            1nat
        } else {
            0nat
        }
    }
}

/// The first value given for the option.
pub open spec fn first_value(e: Seq<(Seq<char>, Seq<char>)>, n: Seq<char>) -> Seq<char>
    decreases e.len(),
{
    if e.len() == 0 {
        Seq::empty()
    } else if name_count(e.drop_last(), n) > 0 {
        first_value(e.drop_last(), n)
    } else if e.last().0 == n {
        e.last().1
    } else {
        Seq::empty()
    }
}

/// Whether some value given for the option differs from the first one.
pub open spec fn varies(e: Seq<(Seq<char>, Seq<char>)>, n: Seq<char>) -> bool
    decreases e.len(),
{
    if e.len() == 0 {
        false
    } else {
        varies(e.drop_last(), n) || (e.last().0 == n && name_count(e.drop_last(), n) > 0 && e.last().1
            != first_value(e.drop_last(), n))
    }
}

/// An option name worth using in build keys: one given by some binary build
/// whose values differ between builds, or that not every binary build
/// gives.
pub open spec fn key_name(e: Seq<(Seq<char>, Seq<char>)>, binaries: nat, n: Seq<char>) -> bool {
    name_count(e, n) > 0 && (varies(e, n) || name_count(e, n) != binaries)
}

/// Texts in strictly ascending order.
pub open spec fn strictly_ascending(s: Seq<Seq<char>>) -> bool {
    forall|a: int, b: int| 0 <= a < b < s.len() ==> text_order(s[a], s[b]) < 0
}

/// The texts of a list of strings.
pub open spec fn name_texts(s: Seq<String>) -> Seq<Seq<char>> {
    s.map_values(|x: String| x@)
}

/// A counter of the values given for one option: its name, its first value,
/// how many builds give it, and whether a value differs from the first.
struct ChangeCounter {
    name: String,
    first: String,
    count: u64,
    use_it: bool,
}

fn flatten_entries(builds: &Vec<BuildOptions>) -> (r: (Vec<(String, String)>, u64))
    requires
        builds@.len() <= u64::MAX,
    ensures
        r.0@.map_values(|o: (String, String)| (o.0@, o.1@)) == option_entries(builds@),
        r.1 as nat == binary_count(builds@),
{
    let mut out: Vec<(String, String)> = Vec::new();
    let mut n: u64 = 0;
    let mut i: usize = 0;
    while i < builds.len()
        invariant
            builds@.len() <= u64::MAX,
            0 <= i <= builds@.len(),
            out@.map_values(|o: (String, String)| (o.0@, o.1@)) == option_entries(builds@.take(i as int)),
            n as nat == binary_count(builds@.take(i as int)),
            n <= i,
        decreases builds@.len() - i,
    {
        proof {
            assert(builds@.take(i + 1).drop_last() =~= builds@.take(i as int));
        }
        let b = &builds[i];
        if !b.is_source {
            let ghost start = out@;
            let mut k: usize = 0;
            while k < b.options.len()
                invariant
                    0 <= k <= b.options@.len(),
                    out@.map_values(|o: (String, String)| (o.0@, o.1@)) == start.map_values(
                        |o: (String, String)| (o.0@, o.1@),
                    ) + b.options@.take(k as int).map_values(|o: (String, String)| (o.0@, o.1@)),
                decreases b.options@.len() - k,
            {
                let ghost before = out@;
                out.push((b.options[k].0.clone(), b.options[k].1.clone()));
                proof {
                    assert(b.options@.take(k + 1) =~= b.options@.take(k as int).push(b.options@[k as int]));
                    assert(out@.map_values(|o: (String, String)| (o.0@, o.1@)) =~= before.map_values(
                        |o: (String, String)| (o.0@, o.1@),
                    ).push((b.options@[k as int].0@, b.options@[k as int].1@)));
                    assert(out@.map_values(|o: (String, String)| (o.0@, o.1@)) =~= start.map_values(
                        |o: (String, String)| (o.0@, o.1@),
                    ) + b.options@.take(k + 1).map_values(|o: (String, String)| (o.0@, o.1@)));
                }
                k = k + 1;
            }
            proof {
                assert(b.options@.take(b.options@.len() as int) =~= b.options@);
            }
            n = n + 1;
        } else {
            proof {
                assert(option_entries(builds@.take(i + 1)) =~= option_entries(builds@.take(i as int)));
            }
        }
        i = i + 1;
    }
    proof {
        assert(builds@.take(builds@.len() as int) =~= builds@);
    }
    (out, n)
}

/// An option no entry gives never varies.
proof fn lemma_absent_not_varies(e: Seq<(Seq<char>, Seq<char>)>, n: Seq<char>)
    requires
        name_count(e, n) == 0,
    ensures
        !varies(e, n),
    decreases e.len(),
{
    if e.len() > 0 {
        lemma_absent_not_varies(e.drop_last(), n);
    }
}

/// The counters hold, for the entries seen, every option name once with its
/// first value, count and whether it varies.
spec fn counters_match(cs: Seq<ChangeCounter>, e: Seq<(Seq<char>, Seq<char>)>) -> bool {
    &&& forall|a: int, b: int| 0 <= a < b < cs.len() ==> cs[a].name@ != cs[b].name@
    &&& forall|k: int|
        0 <= k < cs.len() ==> {
            &&& name_count(e, (#[trigger] cs[k]).name@) == cs[k].count as nat
            &&& cs[k].count > 0
            &&& first_value(e, cs[k].name@) == cs[k].first@
            &&& varies(e, cs[k].name@) == cs[k].use_it
        }
    &&& forall|n: Seq<char>| #![trigger name_count(e, n)] name_count(e, n) > 0 ==> exists|k: int|
        0 <= k < cs.len() && (#[trigger] cs[k]).name@ == n
}

fn count_changes(entries: &Vec<(String, String)>) -> (r: Vec<ChangeCounter>)
    requires
        entries@.len() < u64::MAX,
    ensures
        counters_match(r@, entries@.map_values(|o: (String, String)| (o.0@, o.1@))),
{
    let ghost all = entries@.map_values(|o: (String, String)| (o.0@, o.1@));
    let mut cs: Vec<ChangeCounter> = Vec::new();
    let mut i: usize = 0;
    while i < entries.len()
        invariant
            entries@.len() < u64::MAX,
            all == entries@.map_values(|o: (String, String)| (o.0@, o.1@)),
            0 <= i <= entries@.len(),
            counters_match(cs@, all.take(i as int)),
            forall|k: int| 0 <= k < cs@.len() ==> (#[trigger] cs@[k]).count <= i,
        decreases entries@.len() - i,
    {
        let ghost e = all.take(i as int);
        let ghost e2 = all.take(i + 1);
        proof {
            assert(e2.drop_last() =~= e);
            assert(e2.last() == (entries@[i as int].0@, entries@[i as int].1@));
        }
        let name = &entries[i].0;
        let value = &entries[i].1;
        let mut found: Option<usize> = None;
        let mut j: usize = 0;
        while j < cs.len()
            invariant
                0 <= j <= cs@.len(),
                found matches Some(k) ==> k < cs@.len() && cs@[k as int].name@ == name@,
                found is None ==> forall|k: int| 0 <= k < j ==> cs@[k].name@ != name@,
            decreases cs@.len() - j,
        {
            if found.is_none() && cs[j].name == *name {
                found = Some(j);
            }
            j = j + 1;
        }
        let ghost before = cs@;
        match found {
            Some(k) => {
                let count = cs[k].count + 1;
                let use_it = cs[k].use_it || !(cs[k].first == *value);
                let first = cs[k].first.clone();
                let cname = cs[k].name.clone();
                cs.set(k, ChangeCounter { name: cname, first, count, use_it });
                proof {
                    assert forall|n: Seq<char>| n != name@ implies name_count(e2, n) == name_count(e, n)
                        && (name_count(e, n) > 0 ==> first_value(e2, n) == first_value(e, n)) && varies(e2, n) == varies(e, n) by {
                        assert(e2.len() > 0);
                        assert(e2.drop_last() == e);
                        assert(e2.last().0 == name@);
                    }
                    assert(name_count(e2, name@) == name_count(e, name@) + 1);
                    assert(first_value(e2, name@) == first_value(e, name@));
                    assert(counters_match(cs@, e2)) by {
                        assert forall|k2: int| 0 <= k2 < cs@.len() implies {
                            &&& name_count(e2, (#[trigger] cs@[k2]).name@) == cs@[k2].count as nat
                            &&& cs@[k2].count > 0
                            &&& first_value(e2, cs@[k2].name@) == cs@[k2].first@
                            &&& varies(e2, cs@[k2].name@) == cs@[k2].use_it
                        } by {
                            if k2 != k {
                                assert(cs@[k2] == before[k2]);
                                assert(before[k2].name@ != before[k as int].name@);
                            }
                        }
                        assert forall|n: Seq<char>| #![trigger name_count(e2, n)] name_count(e2, n) > 0 implies exists|k3: int|
                            0 <= k3 < cs@.len() && (#[trigger] cs@[k3]).name@ == n by {
                            if n == name@ {
                                assert(cs@[k as int].name@ == n);
                            } else {
                                assert(name_count(e, n) > 0);
                                let k3 = choose|k3: int| 0 <= k3 < before.len() && (#[trigger] before[k3]).name@ == n;
                                assert(cs@[k3].name@ == n);
                            }
                        }
                        assert forall|a: int, b: int| 0 <= a < b < cs@.len() implies cs@[a].name@ != cs@[b].name@ by {
                            assert(before[a].name@ != before[b].name@);
                        }
                    }
                }
            },
            None => {
                cs.push(ChangeCounter { name: name.clone(), first: value.clone(), count: 1, use_it: false });
                proof {
                    assert(name_count(e, name@) == 0) by {
                        if name_count(e, name@) > 0 {
                            let k3 = choose|k3: int| 0 <= k3 < before.len() && (#[trigger] before[k3]).name@ == name@;
                        }
                    }
                    lemma_absent_not_varies(e, name@);
                    assert(e2.drop_last() == e);
                    assert(e2.last().0 == name@);
                    assert forall|n: Seq<char>| n != name@ implies name_count(e2, n) == name_count(e, n)
                        && (name_count(e, n) > 0 ==> first_value(e2, n) == first_value(e, n)) && varies(e2, n) == varies(e, n) by {
                        assert(e2.len() > 0);
                        assert(e2.drop_last() == e);
                        assert(e2.last().0 == name@);
                    }
                    assert(counters_match(cs@, e2)) by {
                        assert forall|k2: int| 0 <= k2 < cs@.len() implies {
                            &&& name_count(e2, (#[trigger] cs@[k2]).name@) == cs@[k2].count as nat
                            &&& cs@[k2].count > 0
                            &&& first_value(e2, cs@[k2].name@) == cs@[k2].first@
                            &&& varies(e2, cs@[k2].name@) == cs@[k2].use_it
                        } by {
                            if k2 < before.len() {
                                assert(cs@[k2] == before[k2]);
                                if before[k2].name@ == name@ {
                                    assert(name_count(e, before[k2].name@) > 0);
                                }
                            }
                        }
                        assert forall|n: Seq<char>| #![trigger name_count(e2, n)] name_count(e2, n) > 0 implies exists|k3: int|
                            0 <= k3 < cs@.len() && (#[trigger] cs@[k3]).name@ == n by {
                            if n == name@ {
                                assert(cs@[before.len() as int].name@ == n);
                            } else {
                                assert(name_count(e, n) > 0);
                                let k3 = choose|k3: int| 0 <= k3 < before.len() && (#[trigger] before[k3]).name@ == n;
                                assert(cs@[k3].name@ == n);
                            }
                        }
                        assert forall|a: int, b: int| 0 <= a < b < cs@.len() implies cs@[a].name@ != cs@[b].name@ by {
                            if b < before.len() {
                                assert(before[a].name@ != before[b].name@);
                            } else {
                                assert(cs@[a] == before[a]);
                                if before[a].name@ == name@ {
                                    assert(name_count(e, before[a].name@) > 0);
                                }
                            }
                        }
                    }
                }
            },
        }
        i = i + 1;
    }
    proof {
        assert(all.take(entries@.len() as int) =~= all);
    }
    cs
}


/// The strict text order is transitive.
proof fn lemma_text_lt_transitive(a: Seq<char>, b: Seq<char>, c: Seq<char>)
    requires
        text_order(a, b) < 0,
        text_order(b, c) < 0,
    ensures
        text_order(a, c) < 0,
{
    lemma_text_order_props(a, b);
    lemma_text_order_props(b, c);
    lemma_text_order_props(a, c);
    lemma_bytes_order_transitive(encode_utf8(a), encode_utf8(b), encode_utf8(c));
    if a == c {
        lemma_text_order_props(b, a);
    }
}

/// Sort distinct names into ascending text order.
fn sort_names(names: &Vec<String>) -> (r: Vec<String>)
    requires
        name_texts(names@).no_duplicates(),
    ensures
        strictly_ascending(name_texts(r@)),
        forall|n: Seq<char>| name_texts(r@).contains(n) <==> name_texts(names@).contains(n),
{
    let mut out: Vec<String> = Vec::new();
    let mut i: usize = 0;
    while i < names.len()
        invariant
            0 <= i <= names@.len(),
            name_texts(names@).no_duplicates(),
            strictly_ascending(name_texts(out@)),
            forall|n: Seq<char>| name_texts(out@).contains(n) <==> name_texts(names@).take(i as int).contains(n),
        decreases names@.len() - i,
    {
        let ghost before = name_texts(out@);
        let ghost x = names@[i as int]@;
        proof {
            assert(name_texts(names@).take(i + 1) =~= name_texts(names@).take(i as int).push(x));
            assert(!before.contains(x)) by {
                if before.contains(x) {
                    assert(name_texts(names@).take(i as int).contains(x));
                    let k = choose|k: int| 0 <= k < i && #[trigger] name_texts(names@).take(i as int)[k] == x;
                    assert(name_texts(names@)[k] == name_texts(names@)[i as int]);
                }
            }
        }
        let mut p: usize = 0;
        while p < out.len() && compare_text(&names[i], &out[p]) > 0
            invariant
                0 <= p <= out@.len(),
                i < names@.len(),
                before == name_texts(out@),
                x == names@[i as int]@,
                forall|k: int| 0 <= k < p ==> text_order(x, before[k]) > 0,
            decreases out@.len() - p,
        {
            p = p + 1;
        }
        proof {
            if p < out@.len() {
                lemma_text_order_props(x, before[p as int]);
                assert(text_order(x, before[p as int]) < 0) by {
                    if text_order(x, before[p as int]) == 0 {
                        assert(before[p as int] == x);
                    }
                }
            }
        }
        out.insert(p, names[i].clone());
        proof {
            let now = name_texts(out@);
            assert(now =~= before.insert(p as int, x));
            assert forall|a: int, b: int| 0 <= a < b < now.len() implies text_order(now[a], now[b]) < 0 by {
                if a < p && b < p {
                } else if a < p && b == p {
                    lemma_text_order_props(x, before[a]);
                } else if a < p && b > p {
                    assert(now[b] == before[b - 1]);
                } else if a == p {
                    assert(now[b] == before[b - 1]);
                    if b - 1 > p {
                        lemma_text_lt_transitive(x, before[p as int], before[b - 1]);
                    }
                } else {
                    assert(now[a] == before[a - 1] && now[b] == before[b - 1]);
                }
            }
            assert forall|n: Seq<char>| now.contains(n) <==> name_texts(names@).take(i + 1).contains(n) by {
                if now.contains(n) {
                    let k = choose|k: int| 0 <= k < now.len() && now[k] == n;
                    if k != p {
                        if k < p {
                            assert(before[k] == n);
                        } else {
                            assert(before[k - 1] == n);
                        }
                        assert(before.contains(n));
                        assert(name_texts(names@).take(i as int).contains(n));
                        let m = choose|m: int| 0 <= m < i && #[trigger] name_texts(names@).take(i as int)[m] == n;
                        assert(name_texts(names@).take(i + 1)[m] == n);
                    } else {
                        assert(name_texts(names@).take(i + 1)[i as int] == n);
                    }
                }
                if name_texts(names@).take(i + 1).contains(n) {
                    if n == x {
                        assert(now[p as int] == n);
                    } else {
                        let k = choose|k: int| 0 <= k < i + 1 && #[trigger] name_texts(names@).take(i + 1)[k] == n;
                        assert(k < i);
                        assert(name_texts(names@).take(i as int).contains(n)) by {
                            assert(name_texts(names@).take(i as int)[k] == n);
                        }
                        assert(before.contains(n));
                        let j = choose|j: int| 0 <= j < before.len() && before[j] == n;
                        if j < p {
                            assert(now[j] == n);
                        } else {
                            assert(now[j + 1] == n);
                        }
                    }
                }
            }
        }
        i = i + 1;
    }
    proof {
        assert(name_texts(names@).take(names@.len() as int) =~= name_texts(names@));
    }
    out
}

/// Whether a list of strings holds a text.
fn holds_name(names: &Vec<String>, n: &String) -> (r: bool)
    ensures
        r == name_texts(names@).contains(n@),
{
    let mut i: usize = 0;
    while i < names.len()
        invariant
            0 <= i <= names@.len(),
            forall|k: int| 0 <= k < i ==> names@[k]@ != n@,
        decreases names@.len() - i,
    {
        if names[i] == *n {
            assert(name_texts(names@)[i as int] == n@);
            return true;
        }
        i = i + 1;
    }
    proof {
        if name_texts(names@).contains(n@) {
            let k = choose|k: int| 0 <= k < name_texts(names@).len() && name_texts(names@)[k] == n@;
            assert(names@[k]@ == n@);
        }
    }
    false
}

/// The option names to build keys from, for the builds of one package
/// version: the names worth using (see `key_name`), those of `name_order`
/// first and in its order, then the rest in ascending text order.
pub fn build_key_names(builds: &Vec<BuildOptions>, name_order: &Vec<String>) -> (r: Vec<String>)
    requires
        builds@.len() <= u64::MAX,
        option_entries(builds@).len() < u64::MAX,
    ensures
        ({
            let e = option_entries(builds@);
            let nb = binary_count(builds@);
            let first = name_texts(name_order@).filter(|x: Seq<char>| key_name(e, nb, x));
            let rest = name_texts(r@).skip(first.len() as int);
            &&& first.len() <= r@.len()
            &&& name_texts(r@).take(first.len() as int) == first
            &&& strictly_ascending(rest)
            &&& forall|n: Seq<char>| rest.contains(n) <==> (key_name(e, nb, n) && !name_texts(name_order@).contains(n))
        }),
{
    let (entries, nb) = flatten_entries(builds);
    let ghost e = option_entries(builds@);
    let counters = count_changes(&entries);
    // The names worth using.
    let mut names: Vec<String> = Vec::new();
    let mut k: usize = 0;
    while k < counters.len()
        invariant
            0 <= k <= counters@.len(),
            counters_match(counters@, e),
            nb as nat == binary_count(builds@),
            name_texts(names@).no_duplicates(),
            forall|n: Seq<char>| name_texts(names@).contains(n) <==> exists|j: int| 0 <= j < k && (#[trigger] counters@[j]).name@ == n && key_name(e, nb as nat, n),
        decreases counters@.len() - k,
    {
        let c = &counters[k];
        let ghost before = name_texts(names@);
        if c.use_it || c.count != nb {
            names.push(c.name.clone());
            proof {
                assert(name_texts(names@) =~= before.push(c.name@));
                assert(!before.contains(c.name@)) by {
                    if before.contains(c.name@) {
                        let j = choose|j: int| 0 <= j < k && (#[trigger] counters@[j]).name@ == c.name@ && key_name(e, nb as nat, c.name@);
                    }
                }
                assert forall|a: int, b: int| 0 <= a < b < name_texts(names@).len() implies name_texts(names@)[a] != name_texts(names@)[b] by {
                    if b == before.len() {
                        assert(before[a] == name_texts(names@)[a]);
                    }
                }
                assert forall|n: Seq<char>| name_texts(names@).contains(n) <==> exists|j: int| 0 <= j < k + 1 && (#[trigger] counters@[j]).name@ == n && key_name(e, nb as nat, n) by {
                    if name_texts(names@).contains(n) {
                        let m = choose|m: int| 0 <= m < name_texts(names@).len() && name_texts(names@)[m] == n;
                        if m < before.len() {
                            assert(before.contains(n));
                        } else {
                            assert(counters@[k as int].name@ == n);
                        }
                    }
                    if exists|j: int| 0 <= j < k + 1 && (#[trigger] counters@[j]).name@ == n && key_name(e, nb as nat, n) {
                        let j = choose|j: int| 0 <= j < k + 1 && (#[trigger] counters@[j]).name@ == n && key_name(e, nb as nat, n);
                        if j < k {
                            assert(before.contains(n));
                            let m = choose|m: int| 0 <= m < before.len() && before[m] == n;
                            assert(name_texts(names@)[m] == n);
                        } else {
                            assert(name_texts(names@)[before.len() as int] == n);
                        }
                    }
                }
            }
        } else {
            proof {
                assert forall|n: Seq<char>| name_texts(names@).contains(n) <==> exists|j: int| 0 <= j < k + 1 && (#[trigger] counters@[j]).name@ == n && key_name(e, nb as nat, n) by {
                    if exists|j: int| 0 <= j < k + 1 && (#[trigger] counters@[j]).name@ == n && key_name(e, nb as nat, n) {
                        let j = choose|j: int| 0 <= j < k + 1 && (#[trigger] counters@[j]).name@ == n && key_name(e, nb as nat, n);
                        if j == k {
                            assert(!key_name(e, nb as nat, n));
                        }
                    }
                }
            }
        }
        k = k + 1;
    }
    proof {
        assert forall|n: Seq<char>| name_texts(names@).contains(n) <==> key_name(e, nb as nat, n) by {
            if key_name(e, nb as nat, n) {
                assert(name_count(e, n) > 0);
            }
        }
    }
    let sorted = sort_names(&names);
    // The configured names first, in their order.
    let mut out: Vec<String> = Vec::new();
    let mut i: usize = 0;
    while i < name_order.len()
        invariant
            0 <= i <= name_order@.len(),
            forall|n: Seq<char>| name_texts(sorted@).contains(n) <==> key_name(e, nb as nat, n),
            name_texts(out@) == name_texts(name_order@).take(i as int).filter(|x: Seq<char>| key_name(e, nb as nat, x)),
        decreases name_order@.len() - i,
    {
        proof {
            assert(name_texts(name_order@).take(i + 1).drop_last() =~= name_texts(name_order@).take(i as int));
            reveal_with_fuel(Seq::<Seq<char>>::filter, 1);
        }
        if holds_name(&sorted, &name_order[i]) {
            out.push(name_order[i].clone());
            proof {
                assert(name_texts(out@) =~= name_texts(name_order@).take(i + 1).filter(|x: Seq<char>| key_name(e, nb as nat, x)));
            }
        }
        i = i + 1;
    }
    proof {
        assert(name_texts(name_order@).take(name_order@.len() as int) =~= name_texts(name_order@));
    }
    let ghost first = name_texts(out@);
    // Then the other names, in ascending order.
    let mut j: usize = 0;
    let ghost mut rest: Seq<Seq<char>> = Seq::empty();
    while j < sorted.len()
        invariant
            0 <= j <= sorted@.len(),
            strictly_ascending(name_texts(sorted@)),
            forall|n: Seq<char>| name_texts(sorted@).contains(n) <==> key_name(e, nb as nat, n),
            name_texts(out@) == first + rest,
            rest == name_texts(sorted@).take(j as int).filter(|x: Seq<char>| !name_texts(name_order@).contains(x)),
        decreases sorted@.len() - j,
    {
        proof {
            assert(name_texts(sorted@).take(j + 1).drop_last() =~= name_texts(sorted@).take(j as int));
            reveal_with_fuel(Seq::<Seq<char>>::filter, 1);
        }
        if !holds_name(name_order, &sorted[j]) {
            let ghost prev = out@;
            out.push(sorted[j].clone());
            proof {
                assert(name_texts(out@) =~= name_texts(prev).push(sorted@[j as int]@));
                rest = rest.push(sorted@[j as int]@);
                assert(name_texts(out@) =~= first + rest);
            }
        }
        j = j + 1;
    }
    proof {
        let all = name_texts(sorted@);
        assert(all.take(all.len() as int) =~= all);
        let kept = |x: Seq<char>| !name_texts(name_order@).contains(x);
        assert(rest == all.filter(kept));
        assert(name_texts(out@).take(first.len() as int) =~= first);
        assert(name_texts(out@).skip(first.len() as int) =~= rest);
        // The rest keeps the ascending order of the sorted names.
        lemma_filter_ascending(all, kept);
        assert forall|n: Seq<char>| rest.contains(n) <==> (key_name(e, nb as nat, n) && !name_texts(name_order@).contains(n)) by {
            if all.contains(n) && kept(n) {
                let m = choose|m: int| 0 <= m < all.len() && all[m] == n;
                all.lemma_filter_contains(kept, m);
            }
            if rest.contains(n) {
                let m = choose|m: int| 0 <= m < rest.len() && rest[m] == n;
                all.lemma_filter_pred(kept, m);
                all.lemma_filter_contains_rev(kept, n);
            }
        }
    }
    out
}

/// Keeping some texts of a strictly ascending list keeps it strictly
/// ascending.
proof fn lemma_filter_ascending(s: Seq<Seq<char>>, keep: spec_fn(Seq<char>) -> bool)
    requires
        strictly_ascending(s),
    ensures
        strictly_ascending(s.filter(keep)),
    decreases s.len(),
{
    reveal_with_fuel(Seq::<Seq<char>>::filter, 1);
    if s.len() > 0 {
        let prefix = s.drop_last();
        assert(strictly_ascending(prefix));
        lemma_filter_ascending(prefix, keep);
        let f = s.filter(keep);
        let pf = prefix.filter(keep);
        if keep(s.last()) {
            assert(f == pf.push(s.last()));
            assert forall|a: int, b: int| 0 <= a < b < f.len() implies text_order(f[a], f[b]) < 0 by {
                if b == f.len() - 1 {
                    assert(pf[a] == f[a]);
                    assert(pf.contains(pf[a]));
                    prefix.lemma_filter_contains_rev(keep, pf[a]);
                    assert(prefix.contains(pf[a]));
                    let m = choose|m: int| 0 <= m < prefix.len() && prefix[m] == pf[a];
                    assert(s[m] == prefix[m]);
                    assert(text_order(s[m], s[s.len() - 1]) < 0);
                }
            }
        }
    }
}

} // verus!
